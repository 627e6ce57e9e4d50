//! The input tokenizer.  It works over the character sequence of the source
//! text; every token it can produce, and every character it can skip or
//! refuse, is described by `spec_read_token`.

use vstd::prelude::*;
use crate::parser::tokens::{Token, TokenV, SourceLocation};
use crate::util::{dec_nat, push_char, usize_to_string};

verus! {

/// Whether `c` is a decimal digit.
pub open spec fn is_digit_char(c: char) -> bool {
    48 <= c as u32 <= 57
}

/// Whether `c` is an ASCII letter.
pub open spec fn is_letter_char(c: char) -> bool {
    (97 <= c as u32 <= 122) || (65 <= c as u32 <= 90)
}

/// Whether `c` may appear in a symbol besides letters and digits.
pub open spec fn is_special_char(c: char) -> bool {
    c == '+' || c == '-' || c == '*' || c == '/' || c == '%' || c == '\\' || c == '=' || c == '<'
        || c == '>' || c == '!' || c == '?' || c == '&' || c == '_' || c == '#' || c == '$' || c
        == '^' || c == '`' || c == '.' || c == ',' || c == ':' || c == '@'
}

/// Whether `c` may appear in a symbol.
pub open spec fn is_symbol_char(c: char) -> bool {
    is_letter_char(c) || is_digit_char(c) || is_special_char(c)
}

/// Whether `c` is whitespace.
pub open spec fn is_whitespace_char(c: char) -> bool {
    c == ' ' || c == '\t' || c == '\r' || c == '\n'
}

/// A class of characters the tokenizer collects or skips in one run.
#[derive(Clone, Copy, PartialEq, Eq, Structural, Debug)]
pub enum CharClass {
    /// Digits and the decimal point.
    NumberChar,
    /// Characters a symbol may contain.
    SymbolChar,
    /// Everything up to the end of the line: a comment's body.
    CommentChar,
}

/// Whether `c` belongs to `class`.
pub open spec fn char_in_class(class: CharClass, c: char) -> bool {
    match class {
        CharClass::NumberChar => is_digit_char(c) || c == '.',
        CharClass::SymbolChar => is_symbol_char(c),
        CharClass::CommentChar => c != '\n',
    }
}

/// First index at or after `pos` whose character leaves `class` (the length
/// when none does).
pub open spec fn scan_end(chars: Seq<char>, pos: int, class: CharClass) -> int
    decreases chars.len() - pos,
{
    if pos < 0 || pos >= chars.len() {
        pos
    } else if char_in_class(class, chars[pos]) {
        scan_end(chars, pos + 1, class)
    } else {
        pos
    }
}

/// Bounds of `scan_end`: it never runs backwards, never overshoots, the run
/// it spans lies in the class and the character after it (if any) does not.
pub proof fn lemma_scan_end(chars: Seq<char>, pos: int, class: CharClass)
    requires
        0 <= pos <= chars.len(),
    ensures
        pos <= scan_end(chars, pos, class) <= chars.len(),
        forall|j: int|
            pos <= j < scan_end(chars, pos, class) ==> char_in_class(class, #[trigger] chars[j]),
        scan_end(chars, pos, class) < chars.len() ==> !char_in_class(
            class,
            chars[scan_end(chars, pos, class)],
        ),
    decreases chars.len() - pos,
{
    if pos < chars.len() && char_in_class(class, chars[pos]) {
        lemma_scan_end(chars, pos + 1, class);
    }
}

/// Whether every character of `s` is a decimal digit.
pub open spec fn all_digits(s: Seq<char>) -> bool {
    forall|i: int| 0 <= i < s.len() ==> is_digit_char(#[trigger] s[i])
}

/// The number a digit string denotes, most significant digit first.
pub open spec fn dec_value(s: Seq<char>) -> int
    decreases s,
{
    if s.len() == 0 {
        0
    } else {
        dec_value(s.drop_last()) * 10 + (s.last() as u32 - 48)
    }
}

/// The digits of a number never make it smaller: a prefix bounds the whole.
pub proof fn lemma_dec_value_prefix(s: Seq<char>, k: int)
    requires
        all_digits(s),
        0 <= k <= s.len(),
    ensures
        0 <= dec_value(s.take(k)) <= dec_value(s),
    decreases s.len() - k,
{
    if k == s.len() {
        assert(s.take(k) =~= s);
        lemma_dec_value_nonneg(s);
    } else {
        lemma_dec_value_prefix(s, k + 1);
        assert(s.take(k + 1).drop_last() =~= s.take(k));
        assert(s.take(k + 1).last() == s[k]);
        assert(is_digit_char(s[k]));
        lemma_dec_value_nonneg(s.take(k));
    }
}

/// A digit string denotes a natural number.
pub proof fn lemma_dec_value_nonneg(s: Seq<char>)
    requires
        all_digits(s),
    ensures
        dec_value(s) >= 0,
    decreases s,
{
    if s.len() > 0 {
        assert(is_digit_char(s[s.len() - 1]));
        assert(all_digits(s.drop_last())) by {
            assert forall|i: int| 0 <= i < s.len() - 1 implies is_digit_char(
                #[trigger] s.drop_last()[i],
            ) by {
                assert(s.drop_last()[i] == s[i]);
            }
        }
        lemma_dec_value_nonneg(s.drop_last());
    }
}

/// The 64-bit integer a token's digit string denotes: none when the string
/// is empty, holds a non-digit, or exceeds the 64-bit range.
pub open spec fn int_of_digits(s: Seq<char>) -> Option<int> {
    if s.len() > 0 && all_digits(s) && dec_value(s) <= i64::MAX {
        Option::Some(dec_value(s))
    } else {
        Option::None
    }
}

/// Parse a digit string; see `int_of_digits`.
#[verifier::loop_isolation(false)]
pub fn parse_digits(s: &String) -> (r: Option<i64>)
    ensures
        match r {
            Option::Some(v) => int_of_digits(s@) == Option::Some(v as int),
            Option::None => int_of_digits(s@) is None,
        },
{
    let text = s.as_str();
    let n = text.unicode_len();
    if n == 0 {
        return Option::None;
    }
    let mut val: i64 = 0;
    let mut i: usize = 0;
    proof {
        assert(s@.take(0) =~= Seq::<char>::empty());
    }
    while i < n
        invariant
            0 <= i <= n,
            n == s@.len(),
            all_digits(s@.take(i as int)),
            val as int == dec_value(s@.take(i as int)),
            val >= 0,
        decreases n - i,
    {
        let c = text.get_char(i);
        let code = c as u32;
        proof {
            assert(s@.take(i + 1).drop_last() =~= s@.take(i as int));
            assert(s@.take(i + 1).last() == s@[i as int]);
        }
        if code < 48 || code > 57 {
            proof {
                assert(!is_digit_char(s@[i as int]));
                assert(!all_digits(s@));
            }
            return Option::None;
        }
        let d = (code - 48) as i64;
        let next = match val.checked_mul(10) {
            Option::Some(m) => m.checked_add(d),
            Option::None => Option::None,
        };
        match next {
            Option::Some(v) => {
                val = v;
            },
            Option::None => {
                // The prefix already exceeds the 64-bit range, so the whole
                // string does too.
                proof {
                    assert(dec_value(s@.take(i + 1)) > i64::MAX);
                    if all_digits(s@) {
                        lemma_dec_value_prefix(s@, i + 1);
                    }
                }
                return Option::None;
            },
        }
        i = i + 1;
    }
    proof {
        assert(s@.take(n as int) =~= s@);
    }
    Option::Some(val)
}

/// A tokenizer error.
#[derive(Debug)]
pub enum LexerError {
    UnexpectedChar { expected: String, found: String, location: SourceLocation },
    UnknownToken { token: String, location: SourceLocation },
    InvalidInteger { input: String, location: SourceLocation },
}

/// The mathematical model of a tokenizer error.
pub enum LexErrV {
    UnexpectedChar { expected: Seq<char>, found: Seq<char>, file: Seq<char>, lineno: int },
    UnknownToken { token: Seq<char>, file: Seq<char>, lineno: int },
    InvalidInteger { input: Seq<char>, file: Seq<char>, lineno: int },
}

impl View for LexerError {
    type V = LexErrV;

    open spec fn view(&self) -> LexErrV {
        match self {
            LexerError::UnexpectedChar { expected, found, location } => LexErrV::UnexpectedChar {
                expected: expected@,
                found: found@,
                file: location.filename@,
                lineno: location.lineno as int,
            },
            LexerError::UnknownToken { token, location } => LexErrV::UnknownToken {
                token: token@,
                file: location.filename@,
                lineno: location.lineno as int,
            },
            LexerError::InvalidInteger { input, location } => LexErrV::InvalidInteger {
                input: input@,
                file: location.filename@,
                lineno: location.lineno as int,
            },
        }
    }
}

/// The report text of a location: "file:line".
pub open spec fn location_text(file: Seq<char>, lineno: int) -> Seq<char> {
    file + ":"@ + dec_nat(lineno as nat)
}

/// The report text of a tokenizer error.
pub open spec fn lexer_error_text(e: LexErrV) -> Seq<char> {
    match e {
        LexErrV::UnexpectedChar { expected, found, file, lineno } => {
            "unexpected character: expected `"@ + expected + "`, but found "@ + found + " at "@
                + location_text(file, lineno)
        },
        LexErrV::UnknownToken { token, file, lineno } => {
            "unknown token: `"@ + token + "` at "@ + location_text(file, lineno)
        },
        LexErrV::InvalidInteger { input, file, lineno } => {
            "invalid integer: `"@ + input + "` at "@ + location_text(file, lineno)
        },
    }
}

impl LexerError {
    /// The report text of this error.
    pub fn to_text(&self) -> (r: String)
        ensures
            r@ == lexer_error_text(self@),
    {
        match self {
            LexerError::UnexpectedChar { expected, found, location } => {
                let mut m = "unexpected character: expected `".to_owned();
                m.append(expected.as_str());
                m.append("`, but found ");
                m.append(found.as_str());
                m.append(" at ");
                m.append(location.filename.as_str());
                m.append(":");
                m.append(usize_to_string(location.lineno).as_str());
                m
            },
            LexerError::UnknownToken { token, location } => {
                let mut m = "unknown token: `".to_owned();
                m.append(token.as_str());
                m.append("` at ");
                m.append(location.filename.as_str());
                m.append(":");
                m.append(usize_to_string(location.lineno).as_str());
                m
            },
            LexerError::InvalidInteger { input, location } => {
                let mut m = "invalid integer: `".to_owned();
                m.append(input.as_str());
                m.append("` at ");
                m.append(location.filename.as_str());
                m.append(":");
                m.append(usize_to_string(location.lineno).as_str());
                m
            },
        }
    }
}

/// The decoded body of a string literal starting at `i` (just past the
/// opening quote): the content with escape sequences decoded, and the index
/// of the closing quote — the text's length when the quote is missing.
pub open spec fn decode_string(chars: Seq<char>, i: int) -> (Seq<char>, int)
    decreases chars.len() - i,
{
    if i < 0 || i >= chars.len() {
        (Seq::empty(), chars.len() as int)
    } else if chars[i] == '"' {
        (Seq::empty(), i)
    } else if chars[i] == '\\' && i + 1 < chars.len() && is_escape_code(chars[i + 1]) {
        let rest = decode_string(chars, i + 2);
        (seq![escape_char(chars[i + 1])] + rest.0, rest.1)
    } else {
        let rest = decode_string(chars, i + 1);
        (seq![chars[i]] + rest.0, rest.1)
    }
}

/// Whether `c` may follow a backslash in a string literal.
pub open spec fn is_escape_code(c: char) -> bool {
    c == 'n' || c == 'r' || c == 't' || c == '\\' || c == '"' || c == '0'
}

/// The character an escape code denotes.
pub open spec fn escape_char(c: char) -> char {
    if c == 'n' {
        '\n'
    } else if c == 'r' {
        '\r'
    } else if c == 't' {
        '\t'
    } else if c == '\\' {
        '\\'
    } else if c == '"' {
        '"'
    } else {
        '\0'
    }
}

/// The closing quote is never before the opening position.
pub proof fn lemma_decode_string(chars: Seq<char>, i: int)
    requires
        0 <= i <= chars.len(),
    ensures
        i <= decode_string(chars, i).1 <= chars.len(),
        decode_string(chars, i).1 < chars.len() ==> chars[decode_string(chars, i).1] == '"',
    decreases chars.len() - i,
{
    if i < chars.len() && chars[i] != '"' {
        if chars[i] == '\\' && i + 1 < chars.len() && is_escape_code(chars[i + 1]) {
            lemma_decode_string(chars, i + 2);
        } else {
            lemma_decode_string(chars, i + 1);
        }
    }
}

/// The outcome of reading one token: a token and the position after it, a
/// skipped stretch (with the line count after it), or an error.
pub enum ReadOut {
    Tok(TokenV, int),
    Skip(int, int),
    Fail(LexErrV),
}

/// What reading at `pos` produces: the end of input is the EOF token; a
/// digit starts a number (a malformed or oversized one is an error); a
/// symbol character starts a symbol; a quote starts a string literal (an
/// unterminated one is an error); each bracket is its own token; a semicolon
/// skips the rest of the line; whitespace is skipped, counting lines; any
/// other character is an error.
pub open spec fn spec_read_token(
    chars: Seq<char>,
    pos: int,
    file: Seq<char>,
    lineno: int,
) -> ReadOut {
    if pos < 0 || pos >= chars.len() {
        ReadOut::Tok(TokenV::Eof, pos)
    } else {
        let c = chars[pos];
        if is_digit_char(c) {
            let end = scan_end(chars, pos, CharClass::NumberChar);
            let text = chars.subrange(pos, end);
            match int_of_digits(text) {
                Option::Some(v) => ReadOut::Tok(TokenV::Num(v), end),
                Option::None => ReadOut::Fail(
                    LexErrV::InvalidInteger { input: text, file, lineno },
                ),
            }
        } else if is_symbol_char(c) {
            let end = scan_end(chars, pos, CharClass::SymbolChar);
            ReadOut::Tok(TokenV::Sym(chars.subrange(pos, end)), end)
        } else if c == '"' {
            let body = decode_string(chars, pos + 1);
            if body.1 < chars.len() {
                ReadOut::Tok(TokenV::Str(body.0), body.1 + 1)
            } else {
                ReadOut::Fail(
                    LexErrV::UnexpectedChar { expected: "\""@, found: "EOF"@, file, lineno },
                )
            }
        } else if c == '(' {
            ReadOut::Tok(TokenV::LParen, pos + 1)
        } else if c == ')' {
            ReadOut::Tok(TokenV::RParen, pos + 1)
        } else if c == '{' {
            ReadOut::Tok(TokenV::LBrace, pos + 1)
        } else if c == '}' {
            ReadOut::Tok(TokenV::RBrace, pos + 1)
        } else if c == ';' {
            ReadOut::Skip(scan_end(chars, pos, CharClass::CommentChar), lineno)
        } else if is_whitespace_char(c) {
            ReadOut::Skip(
                pos + 1,
                if c == '\n' && lineno < usize::MAX as int {
                    lineno + 1
                } else {
                    lineno
                },
            )
        } else {
            ReadOut::Fail(LexErrV::UnknownToken { token: seq![c], file, lineno })
        }
    }
}

/// The model of a vector of tokens.
pub open spec fn view_tokens(s: Seq<Token>) -> Seq<TokenV> {
    Seq::new(s.len(), |i: int| s[i]@)
}

/// The whole token stream of the input from `pos` on: each token read in
/// order, skipped text dropped, cut short by the first error.
pub open spec fn spec_tokenize(
    chars: Seq<char>,
    pos: int,
    file: Seq<char>,
    lineno: int,
) -> Result<Seq<TokenV>, LexErrV>
    decreases chars.len() - pos,
        via spec_tokenize_decreases
{
    if pos < 0 || pos >= chars.len() {
        Result::Ok(Seq::empty())
    } else {
        match spec_read_token(chars, pos, file, lineno) {
            ReadOut::Tok(t, p) => match spec_tokenize(chars, p, file, lineno) {
                Result::Ok(rest) => Result::Ok(seq![t] + rest),
                Result::Err(e) => Result::Err(e),
            },
            ReadOut::Skip(p, l) => spec_tokenize(chars, p, file, l),
            ReadOut::Fail(e) => Result::Err(e),
        }
    }
}

/// Reading one token always moves forward, so the stream is finite.
#[via_fn]
proof fn spec_tokenize_decreases(chars: Seq<char>, pos: int, file: Seq<char>, lineno: int) {
    if 0 <= pos < chars.len() {
        let c = chars[pos];
        if char_in_class(CharClass::NumberChar, c) {
            assert(scan_end(chars, pos, CharClass::NumberChar) == scan_end(
                chars,
                pos + 1,
                CharClass::NumberChar,
            ));
            lemma_scan_end(chars, pos + 1, CharClass::NumberChar);
        }
        if char_in_class(CharClass::SymbolChar, c) {
            assert(scan_end(chars, pos, CharClass::SymbolChar) == scan_end(
                chars,
                pos + 1,
                CharClass::SymbolChar,
            ));
            lemma_scan_end(chars, pos + 1, CharClass::SymbolChar);
        }
        if char_in_class(CharClass::CommentChar, c) {
            assert(scan_end(chars, pos, CharClass::CommentChar) == scan_end(
                chars,
                pos + 1,
                CharClass::CommentChar,
            ));
            lemma_scan_end(chars, pos + 1, CharClass::CommentChar);
        }
        lemma_decode_string(chars, pos + 1);
    }
}

/// The tokenizer: a cursor over the characters of one source text.
pub struct FileLexer {
    pub chars: Vec<char>,
    pub file: String,
    pub pos: usize,
    pub lineno: usize,
}

impl FileLexer {
    /// The cursor is within bounds.
    pub open spec fn wf(&self) -> bool {
        self.pos <= self.chars@.len()
    }

    /// A tokenizer at the start of `source`.
    pub fn new(source: &str, file: &str) -> (r: FileLexer)
        ensures
            r.chars@ == source@,
            r.file@ == file@,
            r.pos == 0,
            r.lineno == 1,
            r.wf(),
    {
        FileLexer { chars: str_to_chars(source), file: file.to_owned(), pos: 0, lineno: 1 }
    }

    /// Whether the end of the input is reached.
    pub fn is_eof(&self) -> (r: bool)
        ensures
            r == (self.pos >= self.chars@.len()),
    {
        self.pos >= self.chars.len()
    }

    /// The current character, if any.
    pub fn curr(&self) -> (r: Option<char>)
        ensures
            r == if self.pos < self.chars@.len() {
                Option::Some(self.chars@[self.pos as int])
            } else {
                Option::<char>::None
            },
    {
        if self.pos < self.chars.len() {
            Option::Some(self.chars[self.pos])
        } else {
            Option::None
        }
    }

    /// Move on to the next character.
    pub fn bump(&mut self)
        requires
            old(self).wf(),
            old(self).pos < old(self).chars@.len(),
        ensures
            final(self).wf(),
            final(self).pos == old(self).pos + 1,
            final(self).chars == old(self).chars,
            final(self).file == old(self).file,
            final(self).lineno == old(self).lineno,
    {
        let n = self.chars.len();
        self.pos = self.pos + 1;
    }

    /// The next character, if any.
    pub fn nextch(&self) -> (r: Option<char>)
        requires
            self.wf(),
        ensures
            r == if self.pos + 1 < self.chars@.len() {
                Option::Some(self.chars@[self.pos + 1])
            } else {
                Option::<char>::None
            },
    {
        if self.pos < self.chars.len() && self.pos + 1 < self.chars.len() {
            Option::Some(self.chars[self.pos + 1])
        } else {
            Option::None
        }
    }

    /// The source location of the current token.
    pub fn get_source(&self) -> (r: SourceLocation)
        ensures
            r.filename@ == self.file@,
            r.lineno == self.lineno,
    {
        SourceLocation { filename: self.file.clone(), lineno: self.lineno }
    }

    /// A printable representation of the current character.
    pub fn curr_repr(&self) -> (r: String)
        ensures
            r@ == if self.pos < self.chars@.len() {
                seq![self.chars@[self.pos as int]]
            } else {
                "EOF"@
            },
    {
        if self.pos < self.chars.len() {
            let mut s = String::new();
            push_char(&mut s, self.chars[self.pos]);
            s
        } else {
            "EOF".to_owned()
        }
    }

    /// Expect the current character to be `expected` and continue, or fail.
    pub fn expect(&mut self, expected: char) -> (r: Result<(), LexerError>)
        requires
            old(self).wf(),
        ensures
            final(self).chars == old(self).chars,
            final(self).file == old(self).file,
            final(self).lineno == old(self).lineno,
            final(self).wf(),
            if old(self).pos < old(self).chars@.len() && old(self).chars@[old(self).pos as int]
                == expected {
                r is Ok && final(self).pos == old(self).pos + 1
            } else {
                final(self).pos == old(self).pos && match r {
                    Result::Err(e) => e@ == (LexErrV::UnexpectedChar {
                        expected: seq![expected],
                        found: if old(self).pos < old(self).chars@.len() {
                            seq!['\''] + seq![old(self).chars@[old(self).pos as int]] + seq!['\'']
                        } else {
                            "EOF"@
                        },
                        file: old(self).file@,
                        lineno: old(self).lineno as int,
                    }),
                    Result::Ok(_) => false,
                }
            },
    {
        let matches_expected = match self.curr() {
            Option::Some(c) => c == expected,
            Option::None => false,
        };
        if matches_expected {
            self.bump();
            Result::Ok(())
        } else {
            let found = if self.pos < self.chars.len() {
                let mut s = String::new();
                push_char(&mut s, '\'');
                push_char(&mut s, self.chars[self.pos]);
                push_char(&mut s, '\'');
                proof {
                    assert(s@ =~= seq!['\''] + seq![self.chars@[self.pos as int]] + seq!['\'']);
                }
                s
            } else {
                "EOF".to_owned()
            };
            let mut expected_text = String::new();
            push_char(&mut expected_text, expected);
            proof {
                assert(expected_text@ =~= seq![expected]);
            }
            Result::Err(
                LexerError::UnexpectedChar {
                    expected: expected_text,
                    found,
                    location: self.get_source(),
                },
            )
        }
    }

    /// Collect the run of characters of `class` starting at the cursor.
    pub fn collect(&mut self, class: CharClass) -> (r: String)
        requires
            old(self).wf(),
        ensures
            final(self).wf(),
            final(self).chars == old(self).chars,
            final(self).file == old(self).file,
            final(self).lineno == old(self).lineno,
            final(self).pos == scan_end(old(self).chars@, old(self).pos as int, class),
            r@ == old(self).chars@.subrange(old(self).pos as int, final(self).pos as int),
    {
        proof {
            lemma_scan_end(self.chars@, self.pos as int, class);
        }
        let ghost end = scan_end(self.chars@, self.pos as int, class);
        let mut out = String::new();
        while self.pos < self.chars.len() && char_in_class_exec(class, self.chars[self.pos])
            invariant
                old(self).pos <= self.pos <= self.chars@.len(),
                self.chars == old(self).chars,
                self.file == old(self).file,
                self.lineno == old(self).lineno,
                end == scan_end(self.chars@, old(self).pos as int, class),
                self.pos <= end,
                forall|j: int|
                    old(self).pos <= j < self.pos ==> char_in_class(
                        class,
                        #[trigger] self.chars@[j],
                    ),
                scan_end(self.chars@, self.pos as int, class) == end,
                out@ == self.chars@.subrange(old(self).pos as int, self.pos as int),
            decreases self.chars@.len() - self.pos,
        {
            push_char(&mut out, self.chars[self.pos]);
            proof {
                assert(self.chars@.subrange(old(self).pos as int, self.pos + 1) =~= self.chars@
                    .subrange(old(self).pos as int, self.pos as int).push(
                    self.chars@[self.pos as int],
                ));
                lemma_scan_end(self.chars@, self.pos + 1, class);
                assert(scan_end(self.chars@, self.pos as int, class) == scan_end(
                    self.chars@,
                    self.pos + 1,
                    class,
                ));
            }
            self.pos = self.pos + 1;
        }
        out
    }

    /// Skip the run of characters of `class` starting at the cursor.
    pub fn eat_all(&mut self, class: CharClass)
        requires
            old(self).wf(),
        ensures
            final(self).wf(),
            final(self).chars == old(self).chars,
            final(self).file == old(self).file,
            final(self).lineno == old(self).lineno,
            final(self).pos == scan_end(old(self).chars@, old(self).pos as int, class),
    {
        proof {
            lemma_scan_end(self.chars@, self.pos as int, class);
        }
        let ghost end = scan_end(self.chars@, self.pos as int, class);
        while self.pos < self.chars.len() && char_in_class_exec(class, self.chars[self.pos])
            invariant
                old(self).pos <= self.pos <= self.chars@.len(),
                self.chars == old(self).chars,
                self.file == old(self).file,
                self.lineno == old(self).lineno,
                end == scan_end(self.chars@, old(self).pos as int, class),
                self.pos <= end,
                scan_end(self.chars@, self.pos as int, class) == end,
            decreases self.chars@.len() - self.pos,
        {
            proof {
                lemma_scan_end(self.chars@, self.pos + 1, class);
                assert(scan_end(self.chars@, self.pos as int, class) == scan_end(
                    self.chars@,
                    self.pos + 1,
                    class,
                ));
            }
            self.pos = self.pos + 1;
        }
    }
}

impl FileLexer {
    /// Read one number token; the cursor stands on a digit.
    pub fn tokenize_number(&mut self) -> (r: Result<Token, LexerError>)
        requires
            old(self).wf(),
            old(self).pos < old(self).chars@.len(),
            is_digit_char(old(self).chars@[old(self).pos as int]),
        ensures
            final(self).wf(),
            final(self).chars == old(self).chars,
            final(self).file == old(self).file,
            final(self).lineno == old(self).lineno,
            final(self).pos >= old(self).pos,
            match spec_read_token(
                old(self).chars@,
                old(self).pos as int,
                old(self).file@,
                old(self).lineno as int,
            ) {
                ReadOut::Tok(t, p) => r matches Result::Ok(tok) && tok@ == t && final(self).pos
                    == p,
                ReadOut::Skip(p, l) => false,
                ReadOut::Fail(e) => r matches Result::Err(err) && err@ == e,
            },
    {
        proof {
            lemma_scan_end(self.chars@, self.pos as int, CharClass::NumberChar);
        }
        let text = self.collect(CharClass::NumberChar);
        match parse_digits(&text) {
            Option::Some(v) => Result::Ok(Token::NUMBER(v)),
            Option::None => Result::Err(
                LexerError::InvalidInteger { input: text, location: self.get_source() },
            ),
        }
    }

    /// Read one symbol token; the cursor stands on a symbol character.
    pub fn tokenize_symbol(&mut self) -> (r: Result<Token, LexerError>)
        requires
            old(self).wf(),
            old(self).pos < old(self).chars@.len(),
            is_symbol_char(old(self).chars@[old(self).pos as int]),
            !is_digit_char(old(self).chars@[old(self).pos as int]),
        ensures
            final(self).wf(),
            final(self).chars == old(self).chars,
            final(self).file == old(self).file,
            final(self).lineno == old(self).lineno,
            match spec_read_token(
                old(self).chars@,
                old(self).pos as int,
                old(self).file@,
                old(self).lineno as int,
            ) {
                ReadOut::Tok(t, p) => r matches Result::Ok(tok) && tok@ == t && final(self).pos
                    == p,
                _ => false,
            },
    {
        let text = self.collect(CharClass::SymbolChar);
        Result::Ok(Token::SYMBOL(text))
    }

    /// Read one string token; the cursor stands on the opening quote.
    #[verifier::loop_isolation(false)]
    pub fn tokenize_string(&mut self) -> (r: Result<Token, LexerError>)
        requires
            old(self).wf(),
            old(self).pos < old(self).chars@.len(),
            old(self).chars@[old(self).pos as int] == '"',
        ensures
            final(self).wf(),
            final(self).chars == old(self).chars,
            final(self).file == old(self).file,
            final(self).lineno == old(self).lineno,
            final(self).pos >= old(self).pos,
            match spec_read_token(
                old(self).chars@,
                old(self).pos as int,
                old(self).file@,
                old(self).lineno as int,
            ) {
                ReadOut::Tok(t, p) => r matches Result::Ok(tok) && tok@ == t && final(self).pos
                    == p,
                ReadOut::Skip(p, l) => false,
                ReadOut::Fail(e) => r matches Result::Err(err) && err@ == e,
            },
    {
        self.bump();
        let ghost start = self.pos as int;
        let ghost body = decode_string(self.chars@, start);
        proof {
            lemma_decode_string(self.chars@, start);
        }
        let mut content = String::new();
        while self.pos < self.chars.len() && self.chars[self.pos] != '"'
            invariant
                self.chars == old(self).chars,
                self.file == old(self).file,
                self.lineno == old(self).lineno,
                start <= self.pos <= self.chars@.len(),
                body == decode_string(self.chars@, start),
                body.0 == content@ + decode_string(self.chars@, self.pos as int).0,
                body.1 == decode_string(self.chars@, self.pos as int).1,
                self.pos as int <= body.1,
            decreases self.chars@.len() - self.pos,
        {
            let c = self.chars[self.pos];
            proof {
                lemma_decode_string(self.chars@, self.pos + 1);
                if self.pos + 2 <= self.chars@.len() {
                    lemma_decode_string(self.chars@, self.pos + 2);
                }
            }
            let ghost oldcontent = content@;
            if c == '\\' && self.pos + 1 < self.chars.len() && is_escape_code_exec(
                self.chars[self.pos + 1],
            ) {
                push_char(&mut content, escape_char_exec(self.chars[self.pos + 1]));
                proof {
                    let esc = escape_char(self.chars@[self.pos + 1]);
                    let rest = decode_string(self.chars@, self.pos + 2);
                    assert(decode_string(self.chars@, self.pos as int).0 == seq![esc] + rest.0);
                    assert(oldcontent + (seq![esc] + rest.0) =~= oldcontent.push(esc) + rest.0);
                    assert(content@ == oldcontent.push(esc));
                    assert(body.0 == content@ + rest.0);
                }
                self.pos = self.pos + 2;
            } else {
                push_char(&mut content, c);
                proof {
                    let rest = decode_string(self.chars@, self.pos + 1);
                    assert(decode_string(self.chars@, self.pos as int).0 == seq![c] + rest.0);
                    assert(oldcontent + (seq![c] + rest.0) =~= oldcontent.push(c) + rest.0);
                    assert(content@ == oldcontent.push(c));
                    assert(body.0 == content@ + rest.0);
                }
                self.pos = self.pos + 1;
            }
        }
        proof {
            if self.pos < self.chars@.len() {
                assert(decode_string(self.chars@, self.pos as int) == (
                    Seq::<char>::empty(),
                    self.pos as int,
                ));
            }
            assert(body.0 =~= content@);
        }
        match self.expect('"') {
            Result::Ok(_) => Result::Ok(Token::STRING(content)),
            Result::Err(e) => {
                proof {
                    reveal_strlit("\"");
                    assert(seq!['"'] =~= "\""@);
                    assert(self.pos == self.chars@.len());
                }
                Result::Err(e)
            },
        }
    }

    /// Read the next token; `None` is skipped text.  See `spec_read_token`.
    pub fn read_token(&mut self) -> (r: Result<Option<Token>, LexerError>)
        requires
            old(self).wf(),
        ensures
            final(self).wf(),
            final(self).chars == old(self).chars,
            final(self).file == old(self).file,
            final(self).pos >= old(self).pos,
            old(self).pos < old(self).chars@.len() && !(r is Err) ==> final(self).pos > old(
                self,
            ).pos,
            match spec_read_token(
                old(self).chars@,
                old(self).pos as int,
                old(self).file@,
                old(self).lineno as int,
            ) {
                ReadOut::Tok(t, p) => r matches Result::Ok(tok) && tok matches Option::Some(tok)
                    && tok@ == t && final(self).pos == p && final(self).lineno == old(self).lineno,
                ReadOut::Skip(p, l) => r matches Result::Ok(tok) && tok is None && final(self).pos
                    == p && final(self).lineno == l && p > old(self).pos,
                ReadOut::Fail(e) => r matches Result::Err(err) && err@ == e,
            },
    {
        let c = match self.curr() {
            Option::Some(c) => c,
            Option::None => {
                return Result::Ok(Option::Some(Token::EOF));
            },
        };
        let code = c as u32;
        proof {
            if char_in_class(CharClass::NumberChar, self.chars@[self.pos as int]) {
                assert(scan_end(self.chars@, self.pos as int, CharClass::NumberChar) == scan_end(
                    self.chars@,
                    self.pos + 1,
                    CharClass::NumberChar,
                ));
                lemma_scan_end(self.chars@, self.pos + 1, CharClass::NumberChar);
            }
            if char_in_class(CharClass::SymbolChar, self.chars@[self.pos as int]) {
                assert(scan_end(self.chars@, self.pos as int, CharClass::SymbolChar) == scan_end(
                    self.chars@,
                    self.pos + 1,
                    CharClass::SymbolChar,
                ));
                lemma_scan_end(self.chars@, self.pos + 1, CharClass::SymbolChar);
            }
            lemma_decode_string(self.chars@, self.pos + 1);
        }
        if 48 <= code && code <= 57 {
            match self.tokenize_number() {
                Result::Ok(t) => Result::Ok(Option::Some(t)),
                Result::Err(e) => Result::Err(e),
            }
        } else if is_symbol_char_exec(c) {
            match self.tokenize_symbol() {
                Result::Ok(t) => Result::Ok(Option::Some(t)),
                Result::Err(e) => Result::Err(e),
            }
        } else if c == '"' {
            match self.tokenize_string() {
                Result::Ok(t) => Result::Ok(Option::Some(t)),
                Result::Err(e) => Result::Err(e),
            }
        } else if c == '(' {
            self.bump();
            Result::Ok(Option::Some(Token::LPAREN))
        } else if c == ')' {
            self.bump();
            Result::Ok(Option::Some(Token::RPAREN))
        } else if c == '{' {
            self.bump();
            Result::Ok(Option::Some(Token::LBRACE))
        } else if c == '}' {
            self.bump();
            Result::Ok(Option::Some(Token::RBRACE))
        } else if c == ';' {
            proof {
                lemma_scan_end(self.chars@, self.pos as int, CharClass::CommentChar);
                assert(char_in_class(CharClass::CommentChar, self.chars@[self.pos as int]));
                assert(scan_end(self.chars@, self.pos as int, CharClass::CommentChar) == scan_end(
                    self.chars@,
                    self.pos + 1,
                    CharClass::CommentChar,
                ));
                lemma_scan_end(self.chars@, self.pos + 1, CharClass::CommentChar);
            }
            self.eat_all(CharClass::CommentChar);
            Result::Ok(Option::None)
        } else if c == ' ' || c == '\t' || c == '\r' || c == '\n' {
            if c == '\n' && self.lineno < usize::MAX {
                self.lineno = self.lineno + 1;
            }
            self.bump();
            Result::Ok(Option::None)
        } else {
            let token = self.curr_repr();
            Result::Err(LexerError::UnknownToken { token, location: self.get_source() })
        }
    }

    /// Read tokens until one is not skipped text.
    pub fn next_token(&mut self) -> (r: Result<Token, LexerError>)
        requires
            old(self).wf(),
        ensures
            final(self).wf(),
            final(self).chars == old(self).chars,
            final(self).file == old(self).file,
            final(self).pos >= old(self).pos,
    {
        if self.is_eof() {
            return Result::Ok(Token::EOF);
        }
        loop
            invariant
                self.wf(),
                self.chars == old(self).chars,
                self.file == old(self).file,
                self.pos >= old(self).pos,
            decreases self.chars@.len() - self.pos,
        {
            match self.read_token() {
                Result::Ok(Option::Some(t)) => {
                    return Result::Ok(t);
                },
                Result::Ok(Option::None) => {
                },
                Result::Err(e) => {
                    return Result::Err(e);
                },
            }
        }
    }

    /// Tokenize the whole input into a vector; see `spec_tokenize`.
    #[verifier::loop_isolation(false)]
    pub fn tokenize(&mut self) -> (r: Result<Vec<Token>, LexerError>)
        requires
            old(self).wf(),
        ensures
            final(self).wf(),
            final(self).chars == old(self).chars,
            final(self).file == old(self).file,
            match spec_tokenize(
                old(self).chars@,
                old(self).pos as int,
                old(self).file@,
                old(self).lineno as int,
            ) {
                Result::Ok(ts) => r matches Result::Ok(tokens) && view_tokens(tokens@) == ts,
                Result::Err(e) => r matches Result::Err(err) && err@ == e,
            },
    {
        let ghost full = spec_tokenize(
            self.chars@,
            self.pos as int,
            self.file@,
            self.lineno as int,
        );
        let mut tokens: Vec<Token> = Vec::new();
        proof {
            assert(view_tokens(tokens@) =~= Seq::<TokenV>::empty());
            if full is Ok {
                assert(view_tokens(tokens@) + full->Ok_0 =~= full->Ok_0);
            }
        }
        while !self.is_eof()
            invariant
                self.wf(),
                self.chars == old(self).chars,
                self.file == old(self).file,
                full == (match spec_tokenize(
                    self.chars@,
                    self.pos as int,
                    self.file@,
                    self.lineno as int,
                ) {
                    Result::Ok(rest) => Result::<Seq<TokenV>, LexErrV>::Ok(
                        view_tokens(tokens@) + rest,
                    ),
                    Result::Err(e) => Result::<Seq<TokenV>, LexErrV>::Err(e),
                }),
            decreases self.chars@.len() - self.pos,
        {
            let ghost tokens0 = tokens@;
            match self.read_token() {
                Result::Ok(Option::Some(t)) => {
                    let ghost tv = t@;
                    tokens.push(t);
                    proof {
                        assert(view_tokens(tokens@) =~= view_tokens(tokens0).push(tv));
                        let suffix = spec_tokenize(
                            self.chars@,
                            self.pos as int,
                            self.file@,
                            self.lineno as int,
                        );
                        if suffix is Ok {
                            assert(view_tokens(tokens0) + (seq![tv] + suffix->Ok_0)
                                =~= view_tokens(tokens0).push(tv) + suffix->Ok_0);
                        }
                    }
                },
                Result::Ok(Option::None) => {
                },
                Result::Err(e) => {
                    return Result::Err(e);
                },
            }
        }
        proof {
            assert(spec_tokenize(self.chars@, self.pos as int, self.file@, self.lineno as int)
                == Result::<Seq<TokenV>, LexErrV>::Ok(Seq::<TokenV>::empty()));
            assert(view_tokens(tokens@) + Seq::<TokenV>::empty() =~= view_tokens(tokens@));
        }
        Result::Ok(tokens)
    }
}

/// Whether `c` may follow a backslash in a string literal, executable.
pub fn is_escape_code_exec(c: char) -> (r: bool)
    ensures
        r == is_escape_code(c),
{
    c == 'n' || c == 'r' || c == 't' || c == '\\' || c == '"' || c == '0'
}

/// The character an escape code denotes, executable.
pub fn escape_char_exec(c: char) -> (r: char)
    ensures
        r == escape_char(c),
{
    if c == 'n' {
        '\n'
    } else if c == 'r' {
        '\r'
    } else if c == 't' {
        '\t'
    } else if c == '\\' {
        '\\'
    } else if c == '"' {
        '"'
    } else {
        '\0'
    }
}

/// Whether `c` belongs to `class`, executable.
pub fn char_in_class_exec(class: CharClass, c: char) -> (r: bool)
    ensures
        r == char_in_class(class, c),
{
    match class {
        CharClass::NumberChar => {
            let code = c as u32;
            (48 <= code && code <= 57) || c == '.'
        },
        CharClass::SymbolChar => is_symbol_char_exec(c),
        CharClass::CommentChar => c != '\n',
    }
}

/// Whether `c` may appear in a symbol, executable.
pub fn is_symbol_char_exec(c: char) -> (r: bool)
    ensures
        r == is_symbol_char(c),
{
    let code = c as u32;
    (97 <= code && code <= 122) || (65 <= code && code <= 90) || (48 <= code && code <= 57) || c
        == '+' || c == '-' || c == '*' || c == '/' || c == '%' || c == '\\' || c == '=' || c == '<'
        || c == '>' || c == '!' || c == '?' || c == '&' || c == '_' || c == '#' || c == '$' || c
        == '^' || c == '`' || c == '.' || c == ',' || c == ':' || c == '@'
}

/// Copies of the characters of a string, in order.
pub fn str_to_chars(s: &str) -> (r: Vec<char>)
    ensures
        r@ == s@,
{
    let n = s.unicode_len();
    let mut out: Vec<char> = Vec::new();
    let mut i: usize = 0;
    proof {
        assert(out@ =~= s@.take(0));
    }
    while i < n
        invariant
            i <= n,
            n == s@.len(),
            out@ == s@.take(i as int),
        decreases n - i,
    {
        let c = s.get_char(i);
        out.push(c);
        proof {
            assert(s@.take(i + 1) =~= s@.take(i as int).push(s@[i as int]));
        }
        i = i + 1;
    }
    proof {
        assert(s@.take(n as int) =~= s@);
    }
    out
}

} // verus!
