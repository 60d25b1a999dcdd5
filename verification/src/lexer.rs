use vstd::prelude::*;
use vstd::string::StrSliceExecFns;
use vstd::utf8::{
    valid_first_scalar,
    decode_first_scalar,
    length_of_first_scalar,
    valid_utf8,
    is_char_boundary,
    is_continuation_byte,
    pop_first_scalar,
    is_char_boundary_start_end_of_seq,
    is_char_boundary_iff_not_is_continuation_byte,
    valid_utf8_split,
};
use crate::span::CodeSpan;
use crate::token::{Token, TokenKind};
use crate::source::SourceSequence;
use crate::grammar::tokens_wf;
use crate::unicode::{
    unicode_letter,
    unicode_number,
    unicode_whitespace,
    decode_scalar,
    char_from_scalar,
    char_is_letter,
    char_is_number,
    char_is_whitespace,
};

verus! {

// ===================================================================
// Token grammar, as functions of the source bytes
// ===================================================================
/// A well-formed scalar encoding starts at byte `i`.
pub open spec fn valid_scalar_at(s: Seq<u8>, i: int) -> bool {
    0 <= i < s.len() && valid_first_scalar(s.skip(i))
}

/// The scalar encoded at byte `i`.
pub open spec fn scalar_at(s: Seq<u8>, i: int) -> u32 {
    decode_first_scalar(s.skip(i))
}

/// The byte length of the scalar encoded at byte `i`.
pub open spec fn scalar_len_at(s: Seq<u8>, i: int) -> int {
    length_of_first_scalar(s.skip(i))
}

/// A letter starts at byte `i`.
pub open spec fn letter_at(s: Seq<u8>, i: int) -> bool {
    valid_scalar_at(s, i) && unicode_letter(scalar_at(s, i))
}

/// A white-space character starts at byte `i`.
pub open spec fn ws_at(s: Seq<u8>, i: int) -> bool {
    valid_scalar_at(s, i) && unicode_whitespace(scalar_at(s, i))
}

/// An identifier may start at byte `i`: a letter or an underscore.
pub open spec fn ident_start_at(s: Seq<u8>, i: int) -> bool {
    (0 <= i < s.len() && s[i] == 0x5f) || letter_at(s, i)
}

/// An identifier may continue at byte `i`: a letter, a number or an
/// underscore.
pub open spec fn ident_cont_at(s: Seq<u8>, i: int) -> bool {
    ||| (0 <= i < s.len() && s[i] == 0x5f)
    ||| (valid_scalar_at(s, i) && (unicode_letter(scalar_at(s, i)) || unicode_number(
        scalar_at(s, i),
    )))
}

/// Byte length of the identifier character at `i`.
pub open spec fn ident_cont_len_at(s: Seq<u8>, i: int) -> int
    recommends
        ident_cont_at(s, i),
{
    if s[i] == 0x5f {
        1
    } else {
        scalar_len_at(s, i)
    }
}

/// Byte length of the white-space run starting at `i`.
pub open spec fn ws_run(s: Seq<u8>, i: int) -> int
    decreases s.len() - i,
{
    if ws_at(s, i) {
        scalar_len_at(s, i) + ws_run(s, i + scalar_len_at(s, i))
    } else {
        0
    }
}

/// Byte length of the identifier-character run starting at `i`.
pub open spec fn ident_run(s: Seq<u8>, i: int) -> int
    decreases s.len() - i,
{
    if ident_cont_at(s, i) {
        ident_cont_len_at(s, i) + ident_run(s, i + ident_cont_len_at(s, i))
    } else {
        0
    }
}

/// Byte length of a comment counted from its `#`: everything up to and
/// including the next newline, or to the end of the text.
pub open spec fn comment_run(s: Seq<u8>, i: int) -> int
    decreases s.len() - i,
{
    if !(0 <= i < s.len()) {
        0
    } else if s[i] == 0x0a {
        1
    } else {
        1 + comment_run(s, i + 1)
    }
}

/// An ASCII decimal digit.
pub open spec fn is_digit(b: u8) -> bool {
    0x30 <= b <= 0x39
}

/// Byte length of the digit run starting at `i`.
pub open spec fn digits_run(s: Seq<u8>, i: int) -> int
    decreases s.len() - i,
{
    if 0 <= i < s.len() && is_digit(s[i]) {
        1 + digits_run(s, i + 1)
    } else {
        0
    }
}

/// Byte length of a run of digit groups separated by single underscores,
/// starting at `i`.
pub open spec fn group_run(s: Seq<u8>, i: int) -> int
    decreases s.len() - i,
{
    let d = digits_run(s, i);
    if d > 0 && i + d + 1 < s.len() && s[i + d] == 0x5f && is_digit(s[i + d + 1]) {
        d + 1 + group_run(s, i + d + 1)
    } else {
        d
    }
}

/// Byte length of a fractional part starting at `i` (at the `.`); 0 when no
/// fractional part starts there.
pub open spec fn frac_len(s: Seq<u8>, i: int) -> int {
    if 0 <= i && i + 1 < s.len() && s[i] == 0x2e && is_digit(s[i + 1]) {
        1 + group_run(s, i + 1)
    } else {
        0
    }
}

/// Byte length of an exponent part starting at `i` (at the `e` or `E`,
/// continuing with an optional sign and a digit group); 0 when no exponent
/// starts there.
pub open spec fn exp_len(s: Seq<u8>, i: int) -> int {
    if 0 <= i < s.len() && (s[i] == 0x65 || s[i] == 0x45) {
        let j = if i + 1 < s.len() && (s[i + 1] == 0x2b || s[i + 1] == 0x2d) {
            i + 2
        } else {
            i + 1
        };
        if j < s.len() && is_digit(s[j]) {
            (j - i) + group_run(s, j)
        } else {
            0
        }
    } else {
        0
    }
}

/// Byte length of the numeric literal starting at digit position `i`:
/// digit groups, an optional fraction, an optional exponent.
pub open spec fn number_len(s: Seq<u8>, i: int) -> int {
    let n1 = group_run(s, i);
    let n2 = frac_len(s, i + n1);
    let n3 = exp_len(s, i + n1 + n2);
    n1 + n2 + n3
}

/// Operator or punctuation token starting at byte `i`, if any.
pub open spec fn op_token_at(s: Seq<u8>, i: int) -> Option<(TokenKind, int)>
    recommends
        0 <= i < s.len(),
{
    let b = s[i];
    if b == 0x3d {  // '='
        if i + 1 < s.len() && s[i + 1] == 0x3d {
            Some((TokenKind::Eq, 2))
        } else {
            Some((TokenKind::Assign, 1))
        }
    } else if b == 0x21 {  // '!'
        if i + 1 < s.len() && s[i + 1] == 0x3d {
            Some((TokenKind::Ne, 2))
        } else {
            Some((TokenKind::Not, 1))
        }
    } else if b == 0x3e {  // '>'
        if i + 1 < s.len() && s[i + 1] == 0x3d {
            Some((TokenKind::Ge, 2))
        } else {
            Some((TokenKind::Gt, 1))
        }
    } else if b == 0x3c {  // '<'
        if i + 1 < s.len() && s[i + 1] == 0x3d {
            Some((TokenKind::Le, 2))
        } else {
            Some((TokenKind::Lt, 1))
        }
    } else if b == 0x2b {  // '+'
        Some((TokenKind::Add, 1))
    } else if b == 0x2d {  // '-'
        Some((TokenKind::Sub, 1))
    } else if b == 0x2a {  // '*'
        Some((TokenKind::Mul, 1))
    } else if b == 0x2f {  // '/'
        Some((TokenKind::Div, 1))
    } else if b == 0x26 {  // '&'
        if i + 1 < s.len() && s[i + 1] == 0x26 {
            Some((TokenKind::And, 2))
        } else {
            None
        }
    } else if b == 0x7c {  // '|'
        if i + 1 < s.len() && s[i + 1] == 0x7c {
            Some((TokenKind::Or, 2))
        } else {
            None
        }
    } else if b == 0x28 {
        Some((TokenKind::OpenParen, 1))
    } else if b == 0x29 {
        Some((TokenKind::CloseParen, 1))
    } else if b == 0x7b {
        Some((TokenKind::OpenBrace, 1))
    } else if b == 0x7d {
        Some((TokenKind::CloseBrace, 1))
    } else if b == 0x3b {
        Some((TokenKind::Semicolon, 1))
    } else if b == 0x2c {
        Some((TokenKind::Comma, 1))
    } else {
        None
    }
}

/// The keyword kind whose text is exactly `t`, if any.
pub open spec fn keyword_kind(t: Seq<u8>) -> Option<TokenKind> {
    if t == seq![0x62u8, 0x72u8, 0x65u8, 0x61u8, 0x6bu8] {  // break
        Some(TokenKind::Break)
    } else if t == seq![0x63u8, 0x6fu8, 0x6eu8, 0x74u8, 0x69u8, 0x6eu8, 0x75u8, 0x65u8] {  // continue
        Some(TokenKind::Continue)
    } else if t == seq![0x64u8, 0x65u8, 0x66u8] {  // def
        Some(TokenKind::Def)
    } else if t == seq![0x65u8, 0x6cu8, 0x73u8, 0x65u8] {  // else
        Some(TokenKind::Else)
    } else if t == seq![0x65u8, 0x78u8, 0x74u8, 0x65u8, 0x72u8, 0x6eu8] {  // the extern keyword
        Some(TokenKind::Extern)
    } else if t == seq![0x66u8, 0x6fu8, 0x72u8] {  // for
        Some(TokenKind::For)
    } else if t == seq![0x69u8, 0x66u8] {  // if
        Some(TokenKind::If)
    } else if t == seq![0x69u8, 0x6eu8] {  // in
        Some(TokenKind::In)
    } else if t == seq![0x72u8, 0x65u8, 0x74u8, 0x75u8, 0x72u8, 0x6eu8] {  // return
        Some(TokenKind::Return)
    } else if t == seq![0x74u8, 0x68u8, 0x65u8, 0x6eu8] {  // the then keyword
        Some(TokenKind::Then)
    } else {
        None
    }
}

/// The kind and byte length of the token starting at byte `i`, or `None`
/// when no token pattern matches there.
pub open spec fn token_at(s: Seq<u8>, i: int) -> Option<(TokenKind, int)>
    recommends
        0 <= i < s.len(),
{
    if i + 2 < s.len() && s[i] == 0xef && s[i + 1] == 0xbb && s[i + 2] == 0xbf {
        Some((TokenKind::UTF8BOM, 3))
    } else if s[i] == 0x23 {  // '#'
        Some((TokenKind::Comment, comment_run(s, i)))
    } else if is_digit(s[i]) {
        Some((TokenKind::Number, number_len(s, i)))
    } else if ws_at(s, i) {
        Some((TokenKind::Whitespace, ws_run(s, i)))
    } else if ident_start_at(s, i) {
        match keyword_kind(s.subrange(i, i + ident_run(s, i))) {
            Some(k) => Some((k, ident_run(s, i))),
            None => Some((TokenKind::Ident, ident_run(s, i))),
        }
    } else {
        op_token_at(s, i)
    }
}

/// Byte length of the maximal run starting at `i` on which no token pattern
/// matches.
pub open spec fn error_run(s: Seq<u8>, i: int) -> int
    decreases s.len() - i,
{
    if 0 <= i < s.len() && token_at(s, i) is None {
        1 + error_run(s, i + 1)
    } else {
        0
    }
}

/// Number of newline bytes in `s[i..j]`.
pub open spec fn nl_count(s: Seq<u8>, i: int, j: int) -> int
    decreases j - i,
{
    if i < j {
        (if 0 <= i < s.len() && s[i] == 0x0a {
            1int
        } else {
            0int
        }) + nl_count(s, i + 1, j)
    } else {
        0
    }
}

/// Build a span value from unbounded spec integers.
pub open spec fn mk_span(src_id: int, line: int, start: int, end: int) -> CodeSpan {
    CodeSpan {
        line: line as usize,
        src_id: src_id as usize,
        start: start as usize,
        end: end as usize,
    }
}

// ===================================================================
// Bounds of the runs
// ===================================================================
pub proof fn lemma_ws_run(s: Seq<u8>, i: int)
    requires
        0 <= i <= s.len(),
    ensures
        0 <= ws_run(s, i),
        i + ws_run(s, i) <= s.len(),
        ws_at(s, i) ==> ws_run(s, i) >= 1,
    decreases s.len() - i,
{
    if ws_at(s, i) {
        lemma_ws_run(s, i + scalar_len_at(s, i));
    }
}

pub proof fn lemma_ident_run(s: Seq<u8>, i: int)
    requires
        0 <= i <= s.len(),
    ensures
        0 <= ident_run(s, i),
        i + ident_run(s, i) <= s.len(),
        ident_cont_at(s, i) ==> ident_run(s, i) >= 1,
    decreases s.len() - i,
{
    if ident_cont_at(s, i) {
        lemma_ident_run(s, i + ident_cont_len_at(s, i));
    }
}

pub proof fn lemma_comment_run(s: Seq<u8>, i: int)
    requires
        0 <= i <= s.len(),
    ensures
        0 <= comment_run(s, i),
        i + comment_run(s, i) <= s.len(),
        i < s.len() ==> comment_run(s, i) >= 1,
    decreases s.len() - i,
{
    if 0 <= i < s.len() && s[i] != 0x0a {
        lemma_comment_run(s, i + 1);
    }
}

pub proof fn lemma_digits_run(s: Seq<u8>, i: int)
    requires
        0 <= i <= s.len(),
    ensures
        0 <= digits_run(s, i),
        i + digits_run(s, i) <= s.len(),
        i < s.len() && is_digit(s[i]) ==> digits_run(s, i) >= 1,
    decreases s.len() - i,
{
    if 0 <= i < s.len() && is_digit(s[i]) {
        lemma_digits_run(s, i + 1);
    }
}

pub proof fn lemma_group_run(s: Seq<u8>, i: int)
    requires
        0 <= i <= s.len(),
    ensures
        0 <= group_run(s, i),
        i + group_run(s, i) <= s.len(),
        i < s.len() && is_digit(s[i]) ==> group_run(s, i) >= 1,
    decreases s.len() - i,
{
    lemma_digits_run(s, i);
    let d = digits_run(s, i);
    if d > 0 && i + d + 1 < s.len() && s[i + d] == 0x5f && is_digit(s[i + d + 1]) {
        lemma_group_run(s, i + d + 1);
    }
}

pub proof fn lemma_number_len(s: Seq<u8>, i: int)
    requires
        0 <= i < s.len(),
        is_digit(s[i]),
    ensures
        1 <= number_len(s, i),
        i + number_len(s, i) <= s.len(),
{
    lemma_group_run(s, i);
    let n1 = group_run(s, i);
    lemma_frac_len(s, i + n1);
    let n2 = frac_len(s, i + n1);
    lemma_exp_len(s, i + n1 + n2);
}

pub proof fn lemma_frac_len(s: Seq<u8>, i: int)
    requires
        0 <= i <= s.len(),
    ensures
        0 <= frac_len(s, i),
        i + frac_len(s, i) <= s.len(),
{
    if 0 <= i && i + 1 < s.len() && s[i] == 0x2e && is_digit(s[i + 1]) {
        lemma_group_run(s, i + 1);
    }
}

pub proof fn lemma_exp_len(s: Seq<u8>, i: int)
    requires
        0 <= i <= s.len(),
    ensures
        0 <= exp_len(s, i),
        i + exp_len(s, i) <= s.len(),
{
    if 0 <= i < s.len() && (s[i] == 0x65 || s[i] == 0x45) {
        let j = if i + 1 < s.len() && (s[i + 1] == 0x2b || s[i + 1] == 0x2d) {
            i + 2
        } else {
            i + 1
        };
        if j < s.len() && is_digit(s[j]) {
            lemma_group_run(s, j);
        }
    }
}

/// Every token has at least one byte and ends within the text.
pub proof fn lemma_token_at(s: Seq<u8>, i: int)
    requires
        0 <= i < s.len(),
    ensures
        match token_at(s, i) {
            Some(kl) => 1 <= kl.1 && i + kl.1 <= s.len(),
            None => true,
        },
{
    if i + 2 < s.len() && s[i] == 0xef && s[i + 1] == 0xbb && s[i + 2] == 0xbf {
    } else if s[i] == 0x23 {
        lemma_comment_run(s, i);
    } else if is_digit(s[i]) {
        lemma_number_len(s, i);
    } else if ws_at(s, i) {
        lemma_ws_run(s, i);
    } else if ident_start_at(s, i) {
        lemma_ident_run(s, i);
    }
}

pub proof fn lemma_error_run(s: Seq<u8>, i: int)
    requires
        0 <= i <= s.len(),
    ensures
        0 <= error_run(s, i),
        i + error_run(s, i) <= s.len(),
    decreases s.len() - i,
{
    if 0 <= i < s.len() && token_at(s, i) is None {
        lemma_error_run(s, i + 1);
    }
}

pub proof fn lemma_nl_count(s: Seq<u8>, i: int, j: int)
    requires
        i <= j,
    ensures
        0 <= nl_count(s, i, j) <= j - i,
    decreases j - i,
{
    if i < j {
        lemma_nl_count(s, i + 1, j);
    }
}

// ===================================================================
// The token sequence of a text
// ===================================================================
/// The full sequence of lex results from byte `i` of source `src_id`, with
/// running line counter `line`.  Tokens carry the line their text starts
/// on; the counter advances by the newlines inside each successfully
/// recognised token only, so error spans do not advance it.
pub open spec fn lex_from(src_id: int, s: Seq<u8>, i: int, line: int) -> Seq<
    Result<Token, CodeSpan>,
>
    decreases s.len() - i,
    via lex_from_dec
{
    if !(0 <= i < s.len()) {
        Seq::empty()
    } else {
        match token_at(s, i) {
            Some(kl) => {
                let span = mk_span(src_id, line, i, i + kl.1);
                seq![Ok(Token { kind: kl.0, span })] + lex_from(
                    src_id,
                    s,
                    i + kl.1,
                    line + nl_count(s, i, i + kl.1),
                )
            },
            None => {
                let l = error_run(s, i);
                seq![Err(mk_span(src_id, line, i, i + l))] + lex_from(src_id, s, i + l, line)
            },
        }
    }
}

#[via_fn]
proof fn lex_from_dec(src_id: int, s: Seq<u8>, i: int, line: int) {
    if 0 <= i < s.len() {
        lemma_token_at(s, i);
        if token_at(s, i) is None {
            lemma_error_run(s, i);
            assert(error_run(s, i) >= 1) by {
                lemma_error_run(s, i + 1);
            }
        }
    }
}


// ===================================================================
// Executable scanning
// ===================================================================
/// ASCII bytes always form a well-formed one-byte scalar.
proof fn lemma_ascii_valid(s: Seq<u8>, i: int)
    requires
        0 <= i < s.len(),
        s[i] < 0x80,
    ensures
        valid_scalar_at(s, i),
        scalar_at(s, i) == s[i] as u32,
        scalar_len_at(s, i) == 1,
{
    let t = s.skip(i);
    assert(t[0] == s[i]);
    let b = s[i];
    assert(b & 0x7f == b) by (bit_vector)
        requires
            b < 0x80,
    ;
}

/// Decode and materialise the character at byte `i`.
#[verifier::spinoff_prover]
fn try_scalar(text: &Vec<u8>, i: usize) -> (r: Option<(char, usize)>)
    requires
        i < text@.len(),
    ensures
        match r {
            Some(cl) => {
                &&& valid_scalar_at(text@, i as int)
                &&& cl.0 as u32 == scalar_at(text@, i as int)
                &&& cl.1 == scalar_len_at(text@, i as int)
                &&& 1 <= cl.1
                &&& i + cl.1 <= text@.len()
            },
            None => !valid_scalar_at(text@, i as int),
        },
{
    match decode_scalar(text, i) {
        Some((v, l)) => {
            match char_from_scalar(v) {
                Some(c) => Some((c, l)),
                None => vstd::pervasive::unreached(),
            }
        },
        None => None,
    }
}

/// End of the white-space run starting at `start`.
#[verifier::spinoff_prover]
fn scan_ws(text: &Vec<u8>, start: usize) -> (r: usize)
    requires
        start <= text@.len(),
    ensures
        r as int == start + ws_run(text@, start as int),
        r <= text@.len(),
{
    let ghost s = text@;
    let mut i = start;
    loop
        invariant
            start <= i <= s.len(),
            text@ == s,
            start + ws_run(s, start as int) == i + ws_run(s, i as int),
        ensures
            start <= i <= s.len(),
            ws_run(s, i as int) == 0,
            start + ws_run(s, start as int) == i + ws_run(s, i as int),
        decreases s.len() - i,
    {
        if i >= text.len() {
            break;
        }
        match try_scalar(text, i) {
            Some((c, l)) => {
                if char_is_whitespace(c) {
                    i = i + l;
                } else {
                    break;
                }
            },
            None => {
                break;
            },
        }
    }
    i
}

/// End of the identifier-character run starting at `start`.
#[verifier::spinoff_prover]
fn scan_ident(text: &Vec<u8>, start: usize) -> (r: usize)
    requires
        start <= text@.len(),
    ensures
        r as int == start + ident_run(text@, start as int),
        r <= text@.len(),
{
    let ghost s = text@;
    let mut i = start;
    loop
        invariant
            start <= i <= s.len(),
            text@ == s,
            start + ident_run(s, start as int) == i + ident_run(s, i as int),
        ensures
            start <= i <= s.len(),
            ident_run(s, i as int) == 0,
            start + ident_run(s, start as int) == i + ident_run(s, i as int),
        decreases s.len() - i,
    {
        if i >= text.len() {
            break;
        }
        if text[i] == 0x5f {
            i = i + 1;
        } else {
            match try_scalar(text, i) {
                Some((c, l)) => {
                    let letter = char_is_letter(c);
                    let number = char_is_number(c);
                    if letter || number {
                        i = i + l;
                    } else {
                        break;
                    }
                },
                None => {
                    break;
                },
            }
        }
    }
    i
}

/// End of the comment whose `#` sits at `start`.
#[verifier::spinoff_prover]
fn scan_comment(text: &Vec<u8>, start: usize) -> (r: usize)
    requires
        start <= text@.len(),
    ensures
        r as int == start + comment_run(text@, start as int),
        r <= text@.len(),
{
    let ghost s = text@;
    let mut i = start;
    loop
        invariant_except_break
            start <= i <= s.len(),
            text@ == s,
            start + comment_run(s, start as int) == i + comment_run(s, i as int),
        ensures
            start <= i <= s.len(),
            i as int == start + comment_run(s, start as int),
        decreases s.len() - i,
    {
        if i >= text.len() {
            break;
        }
        let b = text[i];
        i = i + 1;
        if b == 0x0a {
            break;
        }
    }
    i
}

/// End of the digit run starting at `start`.
#[verifier::spinoff_prover]
fn scan_digits(text: &Vec<u8>, start: usize) -> (r: usize)
    requires
        start <= text@.len(),
    ensures
        r as int == start + digits_run(text@, start as int),
        start <= r <= text@.len(),
{
    let ghost s = text@;
    let mut i = start;
    while i < text.len() && 0x30 <= text[i] && text[i] <= 0x39
        invariant
            start <= i <= s.len(),
            text@ == s,
            start + digits_run(s, start as int) == i + digits_run(s, i as int),
        decreases s.len() - i,
    {
        i = i + 1;
    }
    i
}

/// End of the underscore-separated digit-group run starting at `start`.
#[verifier::spinoff_prover]
fn scan_group(text: &Vec<u8>, start: usize) -> (r: usize)
    requires
        start <= text@.len(),
    ensures
        r as int == start + group_run(text@, start as int),
        start <= r <= text@.len(),
{
    let ghost s = text@;
    let mut k = start;
    loop
        invariant_except_break
            start <= k <= s.len(),
            text@ == s,
            start + group_run(s, start as int) == k + group_run(s, k as int),
        ensures
            start <= s.len(),
            ({ let r2 = start + group_run(s, start as int); start <= r2 <= s.len() }),
        decreases s.len() - k,
    {
        let j = scan_digits(text, k);
        if text.len() - j >= 2 && text[j] == 0x5f && 0x30 <= text[j + 1] && text[j + 1] <= 0x39
            && j > k {
            k = j + 1;
        } else {
            proof {
                assert(group_run(s, k as int) == digits_run(s, k as int));
            }
            return j;
        }
    }
}


/// End of the numeric literal starting at digit position `start`.
#[verifier::spinoff_prover]
fn scan_number(text: &Vec<u8>, start: usize) -> (r: usize)
    requires
        start < text@.len(),
        is_digit(text@[start as int]),
    ensures
        r as int == start + number_len(text@, start as int),
        start < r <= text@.len(),
{
    let ghost s = text@;
    proof {
        lemma_number_len(s, start as int);
        lemma_group_run(s, start as int);
    }
    let a = scan_group(text, start);
    proof {
        lemma_frac_len(s, a as int);
    }
    // fractional part
    let b = if text.len() - a >= 2 && text[a] == 0x2e && 0x30 <= text[a + 1] && text[a + 1]
        <= 0x39 {
        scan_group(text, a + 1)
    } else {
        proof {
            assert(frac_len(s, a as int) == 0);
        }
        a
    };
    proof {
        lemma_exp_len(s, b as int);
    }
    // exponent part
    let c = if b < text.len() && (text[b] == 0x65 || text[b] == 0x45) {
        let j = if text.len() - b >= 2 && (text[b + 1] == 0x2b || text[b + 1] == 0x2d) {
            b + 2
        } else {
            b + 1
        };
        if j < text.len() && 0x30 <= text[j] && text[j] <= 0x39 {
            scan_group(text, j)
        } else {
            proof {
                assert(exp_len(s, b as int) == 0);
            }
            b
        }
    } else {
        proof {
            assert(exp_len(s, b as int) == 0);
        }
        b
    };
    c
}

/// The keyword whose text is `text[start..end]`, if that text is one.
#[verifier::spinoff_prover]
fn keyword_of(text: &Vec<u8>, start: usize, end: usize) -> (r: Option<TokenKind>)
    requires
        start <= end <= text@.len(),
    ensures
        r == keyword_kind(text@.subrange(start as int, end as int)),
{
    let ghost t = text@.subrange(start as int, end as int);
    let n = end - start;
    if n == 2 {
        let b0 = text[start];
        let b1 = text[start + 1];
        if b0 == 0x69 && b1 == 0x66 {
            proof {
                assert(t =~= seq![0x69u8, 0x66u8]);
            }
            Some(TokenKind::If)
        } else if b0 == 0x69 && b1 == 0x6e {
            proof {
                assert(t =~= seq![0x69u8, 0x6eu8]);
            }
            Some(TokenKind::In)
        } else {
            None
        }
    } else if n == 3 {
        let b0 = text[start];
        let b1 = text[start + 1];
        let b2 = text[start + 2];
        if b0 == 0x64 && b1 == 0x65 && b2 == 0x66 {
            proof {
                assert(t =~= seq![0x64u8, 0x65u8, 0x66u8]);
            }
            Some(TokenKind::Def)
        } else if b0 == 0x66 && b1 == 0x6f && b2 == 0x72 {
            proof {
                assert(t =~= seq![0x66u8, 0x6fu8, 0x72u8]);
            }
            Some(TokenKind::For)
        } else {
            None
        }
    } else if n == 4 {
        let b0 = text[start];
        let b1 = text[start + 1];
        let b2 = text[start + 2];
        let b3 = text[start + 3];
        if b0 == 0x65 && b1 == 0x6c && b2 == 0x73 && b3 == 0x65 {
            proof {
                assert(t =~= seq![0x65u8, 0x6cu8, 0x73u8, 0x65u8]);
            }
            Some(TokenKind::Else)
        } else if b0 == 0x74 && b1 == 0x68 && b2 == 0x65 && b3 == 0x6e {
            proof {
                assert(t =~= seq![0x74u8, 0x68u8, 0x65u8, 0x6eu8]);
            }
            Some(TokenKind::Then)
        } else {
            None
        }
    } else if n == 5 {
        let b0 = text[start];
        let b1 = text[start + 1];
        let b2 = text[start + 2];
        let b3 = text[start + 3];
        let b4 = text[start + 4];
        if b0 == 0x62 && b1 == 0x72 && b2 == 0x65 && b3 == 0x61 && b4 == 0x6b {
            proof {
                assert(t =~= seq![0x62u8, 0x72u8, 0x65u8, 0x61u8, 0x6bu8]);
            }
            Some(TokenKind::Break)
        } else {
            None
        }
    } else if n == 6 {
        let b0 = text[start];
        let b1 = text[start + 1];
        let b2 = text[start + 2];
        let b3 = text[start + 3];
        let b4 = text[start + 4];
        let b5 = text[start + 5];
        if b0 == 0x65 && b1 == 0x78 && b2 == 0x74 && b3 == 0x65 && b4 == 0x72 && b5 == 0x6e {
            proof {
                assert(t =~= seq![0x65u8, 0x78u8, 0x74u8, 0x65u8, 0x72u8, 0x6eu8]);
            }
            Some(TokenKind::Extern)
        } else if b0 == 0x72 && b1 == 0x65 && b2 == 0x74 && b3 == 0x75 && b4 == 0x72 && b5
            == 0x6e {
            proof {
                assert(t =~= seq![0x72u8, 0x65u8, 0x74u8, 0x75u8, 0x72u8, 0x6eu8]);
            }
            Some(TokenKind::Return)
        } else {
            None
        }
    } else if n == 8 {
        let b0 = text[start];
        let b1 = text[start + 1];
        let b2 = text[start + 2];
        let b3 = text[start + 3];
        let b4 = text[start + 4];
        let b5 = text[start + 5];
        let b6 = text[start + 6];
        let b7 = text[start + 7];
        if b0 == 0x63 && b1 == 0x6f && b2 == 0x6e && b3 == 0x74 && b4 == 0x69 && b5 == 0x6e && b6
            == 0x75 && b7 == 0x65 {
            proof {
                assert(t =~= seq![0x63u8, 0x6fu8, 0x6eu8, 0x74u8, 0x69u8, 0x6eu8, 0x75u8, 0x65u8]);
            }
            Some(TokenKind::Continue)
        } else {
            None
        }
    } else {
        None
    }
}

/// Operator or punctuation token starting at `pos`.
#[verifier::spinoff_prover]
fn op_token(text: &Vec<u8>, pos: usize) -> (r: Option<(TokenKind, usize)>)
    requires
        pos < text@.len(),
    ensures
        r is Some <==> op_token_at(text@, pos as int) is Some,
        match r {
            Some(kl) => op_token_at(text@, pos as int) == Some((kl.0, kl.1 as int)) && 1 <= kl.1
                && pos + kl.1 <= text@.len(),
            None => true,
        },
{
    let two = text.len() - pos >= 2;
    let b = text[pos];
    if b == 0x3d {
        if two && text[pos + 1] == 0x3d {
            Some((TokenKind::Eq, 2))
        } else {
            Some((TokenKind::Assign, 1))
        }
    } else if b == 0x21 {
        if two && text[pos + 1] == 0x3d {
            Some((TokenKind::Ne, 2))
        } else {
            Some((TokenKind::Not, 1))
        }
    } else if b == 0x3e {
        if two && text[pos + 1] == 0x3d {
            Some((TokenKind::Ge, 2))
        } else {
            Some((TokenKind::Gt, 1))
        }
    } else if b == 0x3c {
        if two && text[pos + 1] == 0x3d {
            Some((TokenKind::Le, 2))
        } else {
            Some((TokenKind::Lt, 1))
        }
    } else if b == 0x2b {
        Some((TokenKind::Add, 1))
    } else if b == 0x2d {
        Some((TokenKind::Sub, 1))
    } else if b == 0x2a {
        Some((TokenKind::Mul, 1))
    } else if b == 0x2f {
        Some((TokenKind::Div, 1))
    } else if b == 0x26 {
        if two && text[pos + 1] == 0x26 {
            Some((TokenKind::And, 2))
        } else {
            None
        }
    } else if b == 0x7c {
        if two && text[pos + 1] == 0x7c {
            Some((TokenKind::Or, 2))
        } else {
            None
        }
    } else if b == 0x28 {
        Some((TokenKind::OpenParen, 1))
    } else if b == 0x29 {
        Some((TokenKind::CloseParen, 1))
    } else if b == 0x7b {
        Some((TokenKind::OpenBrace, 1))
    } else if b == 0x7d {
        Some((TokenKind::CloseBrace, 1))
    } else if b == 0x3b {
        Some((TokenKind::Semicolon, 1))
    } else if b == 0x2c {
        Some((TokenKind::Comma, 1))
    } else {
        None
    }
}

/// Kind and length of the token starting at `pos`, if any pattern matches.
#[verifier::spinoff_prover]
fn next_token(text: &Vec<u8>, pos: usize) -> (r: Option<(TokenKind, usize)>)
    requires
        pos < text@.len(),
    ensures
        r is Some <==> token_at(text@, pos as int) is Some,
        match r {
            Some(kl) => token_at(text@, pos as int) == Some((kl.0, kl.1 as int)) && 1 <= kl.1
                && pos + kl.1 <= text@.len(),
            None => true,
        },
{
    let ghost s = text@;
    proof {
        lemma_token_at(s, pos as int);
    }
    let rem = text.len() - pos;
    let b = text[pos];
    if b == 0xef && rem >= 3 && text[pos + 1] == 0xbb && text[pos + 2] == 0xbf {
        Some((TokenKind::UTF8BOM, 3))
    } else if b == 0x23 {
        let e = scan_comment(text, pos);
        proof {
            lemma_comment_run(s, pos as int);
        }
        Some((TokenKind::Comment, e - pos))
    } else if 0x30 <= b && b <= 0x39 {
        let e = scan_number(text, pos);
        Some((TokenKind::Number, e - pos))
    } else {
        match try_scalar(text, pos) {
            Some((c, l)) => {
                let ws = char_is_whitespace(c);
                let letter = char_is_letter(c);
                if ws {
                    let e = scan_ws(text, pos);
                    proof {
                        lemma_ws_run(s, pos as int);
                    }
                    Some((TokenKind::Whitespace, e - pos))
                } else if letter || b == 0x5f {
                    let e = scan_ident(text, pos);
                    proof {
                        lemma_ident_run(s, pos as int);
                    }
                    match keyword_of(text, pos, e) {
                        Some(k) => Some((k, e - pos)),
                        None => Some((TokenKind::Ident, e - pos)),
                    }
                } else {
                    op_token(text, pos)
                }
            },
            None => {
                proof {
                    if s[pos as int] < 0x80 {
                        lemma_ascii_valid(s, pos as int);
                    }
                }
                op_token(text, pos)
            },
        }
    }
}

/// Count the newline bytes in `text[start..end]`.
#[verifier::spinoff_prover]
fn count_newlines(text: &Vec<u8>, start: usize, end: usize) -> (r: usize)
    requires
        start <= end <= text@.len(),
    ensures
        r as int == nl_count(text@, start as int, end as int),
        r <= end - start,
{
    let ghost s = text@;
    let mut c: usize = 0;
    let mut j = start;
    while j < end
        invariant
            start <= j <= end <= s.len(),
            text@ == s,
            c <= j - start,
            nl_count(s, start as int, end as int) == c + nl_count(s, j as int, end as int),
        decreases end - j,
    {
        if text[j] == 0x0a {
            c = c + 1;
        }
        j = j + 1;
    }
    c
}

/// End of the maximal token-free run starting at `pos`.
#[verifier::spinoff_prover]
fn scan_error(text: &Vec<u8>, pos: usize) -> (r: usize)
    requires
        pos < text@.len(),
        token_at(text@, pos as int) is None,
    ensures
        r as int == pos + error_run(text@, pos as int),
        pos < r <= text@.len(),
{
    let ghost s = text@;
    proof {
        lemma_error_run(s, pos as int);
        lemma_error_run(s, pos as int + 1);
    }
    let mut j = pos;
    loop
        invariant
            pos <= j <= s.len(),
            text@ == s,
            pos + error_run(s, pos as int) == j + error_run(s, j as int),
        ensures
            pos <= j <= s.len(),
            error_run(s, j as int) == 0,
            pos + error_run(s, pos as int) == j + error_run(s, j as int),
        decreases s.len() - j,
    {
        if j >= text.len() {
            break;
        }
        match next_token(text, j) {
            Some(_) => {
                break;
            },
            None => {
                j = j + 1;
            },
        }
    }
    j
}


// ===================================================================
// The lexer
// ===================================================================
/// Single-pass tokenizer over one registered source.  Iteration is
/// destructive: each call of `next` consumes the token it returns.
pub struct Lexer {
    pub src_id: usize,
    pub text: Vec<u8>,
    pub pos: usize,
    pub line: usize,
}

impl Lexer {
    /// The cursor never passes the end of the text, and the line counter
    /// never exceeds the number of bytes already consumed.
    pub open spec fn wf(self) -> bool {
        self.pos <= self.text@.len() && self.line <= self.pos
    }

    /// The lex results this lexer has yet to produce.
    pub open spec fn remaining(self) -> Seq<Result<Token, CodeSpan>> {
        lex_from(self.src_id as int, self.text@, self.pos as int, self.line as int)
    }

    /// Start lexing the registered source `src_id`.
    pub fn new(src_id: usize, srcs: &SourceSequence) -> (r: Self)
        requires
            src_id < srcs.sources@.len(),
        ensures
            r.src_id == src_id,
            r.pos == 0,
            r.line == 0,
            r.text@ == srcs.sources@[src_id as int].spec_bytes(),
            r.wf(),
    {
        let text = srcs.sources[src_id].text();
        let bytes = text.as_bytes_vec();
        Lexer { src_id, text: bytes, pos: 0, line: 0 }
    }

    /// Produce the next token or lexical-error span, advancing the cursor
    /// and the line counter; `None` once the text is exhausted.
    pub fn next(&mut self) -> (r: Option<Result<Token, CodeSpan>>)
        requires
            old(self).wf(),
        ensures
            final(self).wf(),
            final(self).src_id == old(self).src_id,
            final(self).text == old(self).text,
            match r {
                None => {
                    &&& old(self).pos == old(self).text@.len()
                    &&& *final(self) == *old(self)
                    &&& old(self).remaining().len() == 0
                },
                Some(item) => {
                    &&& old(self).remaining().len() > 0
                    &&& item == old(self).remaining()[0]
                    &&& final(self).remaining() == old(self).remaining().drop_first()
                    &&& old(self).pos < final(self).pos
                },
            },
    {
        let ghost s = self.text@;
        let ghost i0 = self.pos as int;
        let ghost line0 = self.line as int;
        if self.pos >= self.text.len() {
            return None;
        }
        let r = match next_token(&self.text, self.pos) {
            Some((kind, len)) => {
                let nl = count_newlines(&self.text, self.pos, self.pos + len);
                let span = CodeSpan {
                    line: self.line,
                    src_id: self.src_id,
                    start: self.pos,
                    end: self.pos + len,
                };
                proof {
                    lemma_nl_count(s, i0, i0 + len);
                }
                self.pos = self.pos + len;
                self.line = self.line + nl;
                Some(Ok(Token { kind, span }))
            },
            None => {
                let e = scan_error(&self.text, self.pos);
                let span = CodeSpan {
                    line: self.line,
                    src_id: self.src_id,
                    start: self.pos,
                    end: e,
                };
                self.pos = e;
                Some(Err(span))
            },
        };
        proof {
            let results = lex_from(self.src_id as int, s, i0, line0);
            assert(results == seq![r.unwrap()] + final(self).remaining());
            assert(results[0] == r.unwrap());
            assert(results.drop_first() =~= final(self).remaining());
        }
        r
    }

    /// Lex the rest of the text in one go, in source order.
    pub fn lex_all(&mut self) -> (r: Vec<Result<Token, CodeSpan>>)
        requires
            old(self).wf(),
        ensures
            r@ == old(self).remaining(),
            final(self).wf(),
            final(self).pos == final(self).text@.len(),
            final(self).src_id == old(self).src_id,
            final(self).text == old(self).text,
    {
        let ghost orig = *self;
        let mut out: Vec<Result<Token, CodeSpan>> = Vec::new();
        loop
            invariant
                self.wf(),
                self.src_id == orig.src_id,
                self.text == orig.text,
                orig.remaining() == out@ + self.remaining(),
            ensures
                self.wf(),
                self.src_id == orig.src_id,
                self.text == orig.text,
                self.pos == self.text@.len(),
                orig.remaining() == out@ + self.remaining(),
                self.remaining().len() == 0,
            decreases self.text@.len() - self.pos,
        {
            let ghost prev_out = out@;
            let ghost prev_rem = self.remaining();
            match self.next() {
                Some(item) => {
                    out.push(item);
                    proof {
                        assert(prev_out + prev_rem =~= out@ + self.remaining());
                    }
                },
                None => {
                    break;
                },
            }
        }
        proof {
            assert(orig.remaining() =~= out@);
        }
        out
    }
}


// ===================================================================
// What holds of the spans that lexing yields
// ===================================================================
/// The span of one lex result, token or error alike.
pub open spec fn item_span(r: Result<Token, CodeSpan>) -> CodeSpan {
    match r {
        Ok(t) => t.span,
        Err(sp) => sp,
    }
}

/// The tokens among a sequence of lex results, in order.
pub open spec fn ok_tokens(items: Seq<Result<Token, CodeSpan>>) -> Seq<Token>
    decreases items.len(),
{
    if items.len() == 0 {
        Seq::empty()
    } else {
        (match items[0] {
            Ok(t) => seq![t],
            Err(_) => Seq::empty(),
        }) + ok_tokens(items.drop_first())
    }
}

/// The lexical-error spans among a sequence of lex results, in order.
pub open spec fn err_spans(items: Seq<Result<Token, CodeSpan>>) -> Seq<CodeSpan>
    decreases items.len(),
{
    if items.len() == 0 {
        Seq::empty()
    } else {
        (match items[0] {
            Ok(_) => Seq::empty(),
            Err(sp) => seq![sp],
        }) + err_spans(items.drop_first())
    }
}

/// Split lex results into their tokens and their error spans.
#[verifier::spinoff_prover]
pub fn collect_tokens(items: &Vec<Result<Token, CodeSpan>>) -> (r: (Vec<Token>, Vec<CodeSpan>))
    ensures
        r.0@ == ok_tokens(items@),
        r.1@ == err_spans(items@),
{
    let ghost all = items@;
    let mut toks: Vec<Token> = Vec::new();
    let mut errs: Vec<CodeSpan> = Vec::new();
    let mut j: usize = 0;
    proof {
        assert(all.skip(0) =~= all);
    }
    while j < items.len()
        invariant
            j <= all.len(),
            items@ == all,
            ok_tokens(all) == toks@ + ok_tokens(all.skip(j as int)),
            err_spans(all) == errs@ + err_spans(all.skip(j as int)),
        decreases all.len() - j,
    {
        let ghost rest = all.skip(j as int);
        proof {
            assert(rest[0] == all[j as int]);
            assert(rest.drop_first() =~= all.skip(j as int + 1));
        }
        match &items[j] {
            Ok(t) => {
                let ghost t0 = toks@;
                toks.push(*t);
                proof {
                    assert(ok_tokens(rest) =~= seq![all[j as int].unwrap()] + ok_tokens(
                        all.skip(j as int + 1),
                    ));
                    assert(t0 + ok_tokens(rest) =~= toks@ + ok_tokens(all.skip(j as int + 1)));
                    assert(err_spans(rest) =~= err_spans(all.skip(j as int + 1)));
                }
            },
            Err(sp) => {
                let ghost e0 = errs@;
                errs.push(*sp);
                proof {
                    assert(err_spans(rest) =~= seq![item_span(all[j as int])] + err_spans(
                        all.skip(j as int + 1),
                    ));
                    assert(e0 + err_spans(rest) =~= errs@ + err_spans(all.skip(j as int + 1)));
                    assert(ok_tokens(rest) =~= ok_tokens(all.skip(j as int + 1)));
                }
            },
        }
        j = j + 1;
    }
    proof {
        assert(all.skip(all.len() as int) =~= Seq::<Result<Token, CodeSpan>>::empty());
        assert(ok_tokens(all) =~= toks@);
        assert(err_spans(all) =~= errs@);
    }
    (toks, errs)
}

/// Every span that `lex_from` yields lies within the text, is non-empty,
/// belongs to the given source, and the spans appear in source order.
#[verifier::spinoff_prover]
pub proof fn lemma_lex_from_spans(src_id: int, s: Seq<u8>, i: int, line: int)
    requires
        0 <= i <= s.len(),
        s.len() <= usize::MAX,
        0 <= line <= i,
        0 <= src_id <= usize::MAX,
    ensures
        ({
            let r = lex_from(src_id, s, i, line);
            &&& forall|j: int|
                0 <= j < r.len() ==> (#[trigger] item_span(r[j])).src_id == src_id && i <= item_span(
                    r[j],
                ).start < item_span(r[j]).end <= s.len()
            &&& forall|j: int, k: int|
                0 <= j < k < r.len() ==> item_span(#[trigger] r[j]).end <= item_span(
                    #[trigger] r[k],
                ).start
        }),
    decreases s.len() - i,
{
    if 0 <= i < s.len() {
        let r = lex_from(src_id, s, i, line);
        match token_at(s, i) {
            Some(kl) => {
                lemma_token_at(s, i);
                lemma_nl_count(s, i, i + kl.1);
                let line2 = line + nl_count(s, i, i + kl.1);
                lemma_lex_from_spans(src_id, s, i + kl.1, line2);
                let tail = lex_from(src_id, s, i + kl.1, line2);
                assert forall|j: int| 0 <= j < r.len() implies (#[trigger] item_span(
                    r[j],
                )).src_id == src_id && i <= item_span(r[j]).start < item_span(r[j]).end
                    <= s.len() by {
                    if j >= 1 {
                        assert(r[j] == tail[j - 1]);
                    }
                }
                assert forall|j: int, k: int| 0 <= j < k < r.len() implies item_span(
                    #[trigger] r[j],
                ).end <= item_span(#[trigger] r[k]).start by {
                    assert(r[k] == tail[k - 1]);
                    if j >= 1 {
                        assert(r[j] == tail[j - 1]);
                    }
                }
            },
            None => {
                lemma_error_run(s, i);
                lemma_error_run(s, i + 1);
                let l = error_run(s, i);
                lemma_lex_from_spans(src_id, s, i + l, line);
                let tail = lex_from(src_id, s, i + l, line);
                assert forall|j: int| 0 <= j < r.len() implies (#[trigger] item_span(
                    r[j],
                )).src_id == src_id && i <= item_span(r[j]).start < item_span(r[j]).end
                    <= s.len() by {
                    if j >= 1 {
                        assert(r[j] == tail[j - 1]);
                    }
                }
                assert forall|j: int, k: int| 0 <= j < k < r.len() implies item_span(
                    #[trigger] r[j],
                ).end <= item_span(#[trigger] r[k]).start by {
                    assert(r[k] == tail[k - 1]);
                    if j >= 1 {
                        assert(r[j] == tail[j - 1]);
                    }
                }
            },
        }
    }
}


/// After a character boundary inside valid text, the next boundary follows
/// at the end of the character that starts there.
#[verifier::spinoff_prover]
proof fn lemma_next_boundary(s: Seq<u8>, i: int)
    requires
        valid_utf8(s),
        is_char_boundary(s, i),
        0 <= i < s.len(),
    ensures
        valid_first_scalar(s.skip(i)),
        1 <= length_of_first_scalar(s.skip(i)) <= 4,
        i + length_of_first_scalar(s.skip(i)) <= s.len(),
        is_char_boundary(s, i + length_of_first_scalar(s.skip(i))),
{
    valid_utf8_split(s, i);
    let suf = s.skip(i);
    assert(suf =~= s.subrange(i, s.len() as int));
    assert(valid_utf8(suf));
    assert(valid_first_scalar(suf));
    let l = length_of_first_scalar(suf);
    if i + l == s.len() {
        is_char_boundary_start_end_of_seq(s);
    } else {
        let rest = pop_first_scalar(suf);
        assert(valid_utf8(rest));
        assert(rest.len() > 0);
        assert(valid_first_scalar(rest));
        assert(rest[0] == s[i + l]);
        assert(!is_continuation_byte(s[i + l]));
        is_char_boundary_iff_not_is_continuation_byte(s, i + l);
    }
}

/// An ASCII byte is one whole character: the next position is a boundary.
#[verifier::spinoff_prover]
proof fn lemma_ascii_next(s: Seq<u8>, j: int)
    requires
        valid_utf8(s),
        0 <= j < s.len(),
        s[j] < 0x80,
    ensures
        is_char_boundary(s, j),
        is_char_boundary(s, j + 1),
{
    is_char_boundary_iff_not_is_continuation_byte(s, j);
    lemma_next_boundary(s, j);
    lemma_ascii_valid(s, j);
}

/// A white-space run that starts at a boundary ends at one.
#[verifier::spinoff_prover]
proof fn lemma_ws_run_boundary(s: Seq<u8>, i: int)
    requires
        valid_utf8(s),
        is_char_boundary(s, i),
        0 <= i <= s.len(),
    ensures
        is_char_boundary(s, i + ws_run(s, i)),
    decreases s.len() - i,
{
    if ws_at(s, i) {
        lemma_next_boundary(s, i);
        lemma_ws_run_boundary(s, i + scalar_len_at(s, i));
    }
}

/// An identifier run that starts at a boundary ends at one.
#[verifier::spinoff_prover]
proof fn lemma_ident_run_boundary(s: Seq<u8>, i: int)
    requires
        valid_utf8(s),
        is_char_boundary(s, i),
        0 <= i <= s.len(),
    ensures
        is_char_boundary(s, i + ident_run(s, i)),
    decreases s.len() - i,
{
    if ident_cont_at(s, i) {
        if s[i] == 0x5f {
            lemma_ascii_next(s, i);
        } else {
            lemma_next_boundary(s, i);
        }
        lemma_ident_run_boundary(s, i + ident_cont_len_at(s, i));
    }
}

/// A comment runs to the end of the text or ends right after a newline.
#[verifier::spinoff_prover]
proof fn lemma_comment_last(s: Seq<u8>, i: int)
    requires
        0 <= i <= s.len(),
    ensures
        i + comment_run(s, i) == s.len() || (i <= i + comment_run(s, i) - 1 < s.len() && s[i
            + comment_run(s, i) - 1] == 0x0a),
    decreases s.len() - i,
{
    if 0 <= i < s.len() && s[i] != 0x0a {
        lemma_comment_last(s, i + 1);
        lemma_comment_run(s, i + 1);
    }
}

/// A digit run ends right after a digit.
#[verifier::spinoff_prover]
proof fn lemma_digits_last(s: Seq<u8>, i: int)
    requires
        0 <= i <= s.len(),
        digits_run(s, i) > 0,
    ensures
        i <= i + digits_run(s, i) - 1 < s.len(),
        is_digit(s[i + digits_run(s, i) - 1]),
    decreases s.len() - i,
{
    lemma_digits_run(s, i);
    if digits_run(s, i + 1) > 0 {
        lemma_digits_last(s, i + 1);
    } else {
        lemma_digits_run(s, i + 1);
    }
}

/// An underscore-separated digit-group run ends right after a digit.
#[verifier::spinoff_prover]
proof fn lemma_group_last(s: Seq<u8>, i: int)
    requires
        0 <= i <= s.len(),
        group_run(s, i) > 0,
    ensures
        i <= i + group_run(s, i) - 1 < s.len(),
        is_digit(s[i + group_run(s, i) - 1]),
    decreases s.len() - i,
{
    lemma_group_run(s, i);
    let d = digits_run(s, i);
    if d > 0 && i + d + 1 < s.len() && s[i + d] == 0x5f && is_digit(s[i + d + 1]) {
        lemma_digits_run(s, i);
        lemma_group_run(s, i + d + 1);
        lemma_group_last(s, i + d + 1);
    } else {
        assert(group_run(s, i) == d);
        lemma_digits_last(s, i);
    }
}

/// A numeric literal ends right after a digit.
#[verifier::spinoff_prover]
proof fn lemma_number_last(s: Seq<u8>, i: int)
    requires
        0 <= i < s.len(),
        is_digit(s[i]),
    ensures
        i <= i + number_len(s, i) - 1 < s.len(),
        is_digit(s[i + number_len(s, i) - 1]),
{
    lemma_group_run(s, i);
    let n1 = group_run(s, i);
    lemma_frac_len(s, i + n1);
    let n2 = frac_len(s, i + n1);
    lemma_exp_len(s, i + n1 + n2);
    let n3 = exp_len(s, i + n1 + n2);
    if n3 > 0 {
        let b = i + n1 + n2;
        let j = if b + 1 < s.len() && (s[b + 1] == 0x2b || s[b + 1] == 0x2d) {
            b + 2
        } else {
            b + 1
        };
        lemma_group_run(s, j);
        lemma_group_last(s, j);
    } else if n2 > 0 {
        lemma_group_run(s, i + n1 + 1);
        lemma_group_last(s, i + n1 + 1);
    } else {
        lemma_group_last(s, i);
    }
}

/// A token that starts at a boundary ends at one.
#[verifier::spinoff_prover]
proof fn lemma_token_end_boundary(s: Seq<u8>, i: int)
    requires
        valid_utf8(s),
        is_char_boundary(s, i),
        0 <= i < s.len(),
    ensures
        token_at(s, i) matches Some(kl) ==> is_char_boundary(s, i + kl.1),
{
    if i + 2 < s.len() && s[i] == 0xef && s[i + 1] == 0xbb && s[i + 2] == 0xbf {
        // the byte-order mark is one three-byte character
        lemma_next_boundary(s, i);
        assert(s.skip(i)[0] == s[i]);
    } else if s[i] == 0x23 {
        lemma_comment_run(s, i);
        lemma_comment_last(s, i);
        let e = i + comment_run(s, i);
        if e == s.len() {
            is_char_boundary_start_end_of_seq(s);
        } else {
            lemma_ascii_next(s, e - 1);
        }
    } else if is_digit(s[i]) {
        lemma_number_len(s, i);
        lemma_number_last(s, i);
        let e = i + number_len(s, i);
        lemma_ascii_next(s, e - 1);
    } else if ws_at(s, i) {
        lemma_ws_run_boundary(s, i);
    } else if ident_start_at(s, i) {
        lemma_ident_run_boundary(s, i);
    } else {
        match op_token_at(s, i) {
            Some(kl) => {
                lemma_ascii_next(s, i);
                if kl.1 == 2 {
                    lemma_ascii_next(s, i + 1);
                }
            },
            None => {},
        }
    }
}

/// A token-free run ends at a character boundary: either at the end of the
/// text or where the next token starts.
#[verifier::spinoff_prover]
proof fn lemma_error_end_boundary(s: Seq<u8>, i: int)
    requires
        valid_utf8(s),
        0 <= i <= s.len(),
    ensures
        is_char_boundary(s, i + error_run(s, i)),
    decreases s.len() - i,
{
    if i == s.len() {
        is_char_boundary_start_end_of_seq(s);
    } else if token_at(s, i) is None {
        lemma_error_end_boundary(s, i + 1);
    } else {
        // a token starts here, so this byte cannot be a continuation byte
        if i + 2 < s.len() && s[i] == 0xef && s[i + 1] == 0xbb && s[i + 2] == 0xbf {
        } else if s[i] == 0x23 || is_digit(s[i]) {
        } else if ws_at(s, i) || letter_at(s, i) {
            assert(s.skip(i)[0] == s[i]);
        } else {
        }
        assert(!is_continuation_byte(s[i]));
        is_char_boundary_iff_not_is_continuation_byte(s, i);
    }
}

/// Every span that `lex_from` yields begins and ends on a character
/// boundary of the text, error spans included.
#[verifier::spinoff_prover]
pub proof fn lemma_lex_from_boundaries(src_id: int, s: Seq<u8>, i: int, line: int)
    requires
        0 <= i <= s.len(),
        s.len() <= usize::MAX,
        0 <= line <= i,
        0 <= src_id <= usize::MAX,
        valid_utf8(s),
        is_char_boundary(s, i),
    ensures
        ({
            let r = lex_from(src_id, s, i, line);
            forall|j: int|
                0 <= j < r.len() ==> is_char_boundary(s, (#[trigger] item_span(r[j])).start as int)
                    && is_char_boundary(s, item_span(r[j]).end as int)
        }),
    decreases s.len() - i,
{
    if 0 <= i < s.len() {
        let r = lex_from(src_id, s, i, line);
        match token_at(s, i) {
            Some(kl) => {
                lemma_token_at(s, i);
                lemma_token_end_boundary(s, i);
                lemma_nl_count(s, i, i + kl.1);
                let line2 = line + nl_count(s, i, i + kl.1);
                lemma_lex_from_boundaries(src_id, s, i + kl.1, line2);
                let tail = lex_from(src_id, s, i + kl.1, line2);
                assert forall|j: int| 0 <= j < r.len() implies is_char_boundary(
                    s,
                    (#[trigger] item_span(r[j])).start as int,
                ) && is_char_boundary(s, item_span(r[j]).end as int) by {
                    if j >= 1 {
                        assert(r[j] == tail[j - 1]);
                    }
                }
            },
            None => {
                lemma_error_run(s, i);
                lemma_error_run(s, i + 1);
                lemma_error_end_boundary(s, i);
                let l = error_run(s, i);
                lemma_lex_from_boundaries(src_id, s, i + l, line);
                let tail = lex_from(src_id, s, i + l, line);
                assert forall|j: int| 0 <= j < r.len() implies is_char_boundary(
                    s,
                    (#[trigger] item_span(r[j])).start as int,
                ) && is_char_boundary(s, item_span(r[j]).end as int) by {
                    if j >= 1 {
                        assert(r[j] == tail[j - 1]);
                    }
                }
            },
        }
    }
}


/// The tokens among the lex results are in source order, with non-empty
/// spans bounded by the text, all of one source.
#[verifier::spinoff_prover]
pub proof fn lemma_lex_ok_tokens(src_id: int, s: Seq<u8>, i: int, line: int)
    requires
        0 <= i <= s.len(),
        s.len() <= usize::MAX,
        0 <= line <= i,
        0 <= src_id <= usize::MAX,
    ensures
        ({
            let toks = ok_tokens(lex_from(src_id, s, i, line));
            &&& forall|j: int|
                0 <= j < toks.len() ==> i <= (#[trigger] toks[j]).span.start < toks[j].span.end
                    <= s.len() && toks[j].span.src_id == src_id
            &&& forall|j: int, k: int|
                0 <= j < k < toks.len() ==> (#[trigger] toks[j]).span.end <= (
                #[trigger] toks[k]).span.start
        }),
    decreases s.len() - i,
{
    if 0 <= i < s.len() {
        let r = lex_from(src_id, s, i, line);
        let toks = ok_tokens(r);
        match token_at(s, i) {
            Some(kl) => {
                lemma_token_at(s, i);
                lemma_nl_count(s, i, i + kl.1);
                let line2 = line + nl_count(s, i, i + kl.1);
                lemma_lex_ok_tokens(src_id, s, i + kl.1, line2);
                let tail = lex_from(src_id, s, i + kl.1, line2);
                let ttoks = ok_tokens(tail);
                assert(r.drop_first() =~= tail);
                let span = mk_span(src_id, line, i, i + kl.1);
                assert(toks =~= seq![Token { kind: kl.0, span }] + ttoks);
                assert forall|j: int| 0 <= j < toks.len() implies i <= (
                #[trigger] toks[j]).span.start < toks[j].span.end <= s.len()
                    && toks[j].span.src_id == src_id by {
                    if j >= 1 {
                        assert(toks[j] == ttoks[j - 1]);
                    }
                }
                assert forall|j: int, k: int| 0 <= j < k < toks.len() implies (
                #[trigger] toks[j]).span.end <= (#[trigger] toks[k]).span.start by {
                    assert(toks[k] == ttoks[k - 1]);
                    if j >= 1 {
                        assert(toks[j] == ttoks[j - 1]);
                    }
                }
            },
            None => {
                lemma_error_run(s, i);
                lemma_error_run(s, i + 1);
                let l = error_run(s, i);
                lemma_lex_ok_tokens(src_id, s, i + l, line);
                let tail = lex_from(src_id, s, i + l, line);
                assert(r.drop_first() =~= tail);
                assert(toks =~= ok_tokens(tail));
            },
        }
    }
}

/// The token sequence that lexing a whole text yields is a well-formed
/// input for the parser.
#[verifier::spinoff_prover]
pub proof fn lemma_lex_tokens_wf(src_id: int, s: Seq<u8>, line: int)
    requires
        s.len() <= usize::MAX,
        0 <= src_id <= usize::MAX,
        line == 0,
    ensures
        tokens_wf(ok_tokens(lex_from(src_id, s, 0, line)), s.len() as int),
{
    lemma_lex_ok_tokens(src_id, s, 0, line);
    reveal(tokens_wf);
}

/// Every span that lexing a registered source yields — error spans
/// included — is addressable in its registry: it satisfies the
/// precondition of `SourceSequence::get_text`.
#[verifier::spinoff_prover]
pub proof fn lemma_lex_spans_valid(srcs: SourceSequence, src_id: usize)
    requires
        src_id < srcs.sources@.len(),
        srcs.sources@[src_id as int].spec_bytes().len() <= usize::MAX,
    ensures
        ({
            let s = srcs.sources@[src_id as int].spec_bytes();
            let r = lex_from(src_id as int, s, 0, 0);
            forall|j: int| 0 <= j < r.len() ==> srcs.span_valid(#[trigger] item_span(r[j]))
        }),
{
    let s = srcs.sources@[src_id as int].spec_bytes();
    vstd::utf8::encode_utf8_valid_utf8(srcs.sources@[src_id as int].spec_text());
    assert(valid_utf8(s));
    assert(is_char_boundary(s, 0));
    lemma_lex_from_spans(src_id as int, s, 0, 0);
    lemma_lex_from_boundaries(src_id as int, s, 0, 0);
}

} // verus!
