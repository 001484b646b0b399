//! Lexical analysis: from source text to tokens.
//!
//! The executable lexer is proved equal to [`spec_lex`], a spec-level
//! scanner over the ASCII-filtered character sequence of the source.

use vstd::prelude::*;

use crate::token::Identifier;
use crate::token::Token;
use crate::token::TokenM;
use crate::token::tokens_view;

verus! {

/// Relies on std's String::push: appends one character at the end.
#[verifier::external_body]
pub fn push_char(s: &mut String, c: char)
    ensures
        final(s)@ == old(s)@.push(c),
{
    s.push(c);
}

/// Whether a character is ASCII whitespace (space, tab, line feed,
/// vertical tab, form feed or carriage return).
pub open spec fn is_ws(c: char) -> bool {
    c as u32 == 32 || (9 <= c as u32 && c as u32 <= 13)
}

/// Whether a character is ASCII.
pub open spec fn is_ascii_char(c: char) -> bool {
    c as u32 <= 127
}

/// Whether a character may start an identifier: an ASCII letter or `_`.
pub open spec fn is_ident_start(c: char) -> bool {
    (65 <= c as u32 && c as u32 <= 90) || (97 <= c as u32 && c as u32 <= 122) || c as u32 == 95
}

/// Whether a character may continue an identifier: an ASCII letter,
/// an ASCII digit or `_`.
pub open spec fn is_ident_char(c: char) -> bool {
    is_ident_start(c) || is_digit(c)
}

/// Whether a character is an ASCII digit.
pub open spec fn is_digit(c: char) -> bool {
    48 <= c as u32 && c as u32 <= 57
}

fn is_ws_char(c: char) -> (r: bool)
    ensures
        r == is_ws(c),
{
    let u = c as u32;
    u == 32 || (9 <= u && u <= 13)
}

fn is_ascii_char_exec(c: char) -> (r: bool)
    ensures
        r == is_ascii_char(c),
{
    c as u32 <= 127
}

fn is_ident_start_char(c: char) -> (r: bool)
    ensures
        r == is_ident_start(c),
{
    let u = c as u32;
    (65 <= u && u <= 90) || (97 <= u && u <= 122) || u == 95
}

fn is_ident_char_exec(c: char) -> (r: bool)
    ensures
        r == is_ident_char(c),
{
    is_ident_start_char(c) || is_digit_char(c)
}

fn is_digit_char(c: char) -> (r: bool)
    ensures
        r == is_digit(c),
{
    let u = c as u32;
    48 <= u && u <= 57
}

/// The ASCII characters of a sequence, in order; the rest are dropped.
pub open spec fn ascii_filter(s: Seq<char>) -> Seq<char>
    decreases s.len(),
{
    if s.len() == 0 {
        Seq::empty()
    } else if is_ascii_char(s.last()) {
        ascii_filter(s.drop_last()).push(s.last())
    } else {
        ascii_filter(s.drop_last())
    }
}

/// How many leading characters of `cs` satisfy `p`.
pub open spec fn count_prefix(cs: Seq<char>, p: spec_fn(char) -> bool) -> nat
    decreases cs.len(),
{
    if cs.len() > 0 && p(cs[0]) {
        count_prefix(cs.skip(1), p) + 1
    } else {
        0
    }
}

/// What `count_prefix` counts: a prefix of characters satisfying `p`,
/// ended by the end of the sequence or a character that does not.
pub proof fn lemma_count_prefix(cs: Seq<char>, p: spec_fn(char) -> bool)
    ensures
        count_prefix(cs, p) <= cs.len(),
        forall|j: int| 0 <= j < count_prefix(cs, p) ==> p(cs[j]),
        count_prefix(cs, p) < cs.len() ==> !p(cs[count_prefix(cs, p) as int]),
    decreases cs.len(),
{
    if cs.len() > 0 && p(cs[0]) {
        lemma_count_prefix(cs.skip(1), p);
        assert forall|j: int| 0 <= j < count_prefix(cs, p) implies p(cs[j]) by {
            if j > 0 {
                assert(cs.skip(1)[j - 1] == cs[j]);
            }
        }
        if count_prefix(cs, p) < cs.len() {
            assert(cs.skip(1)[count_prefix(cs, p) - 1] == cs[count_prefix(cs, p) as int]);
        }
    }
}

/// `count_prefix` is determined by any witness prefix.
pub proof fn lemma_count_prefix_determined(cs: Seq<char>, p: spec_fn(char) -> bool, n: int)
    requires
        0 <= n <= cs.len(),
        forall|j: int| 0 <= j < n ==> p(cs[j]),
        n < cs.len() ==> !p(cs[n]),
    ensures
        count_prefix(cs, p) == n,
    decreases cs.len(),
{
    if n == 0 {
    } else {
        assert(p(cs[0]));
        assert forall|j: int| 0 <= j < n - 1 implies p(cs.skip(1)[j]) by {
            assert(cs.skip(1)[j] == cs[j + 1]);
        }
        if n - 1 < cs.skip(1).len() {
            assert(cs.skip(1)[n - 1] == cs[n]);
        }
        lemma_count_prefix_determined(cs.skip(1), p, n - 1);
    }
}

/// The numeric value of a digit sequence, most significant first.
pub open spec fn digits_val(ds: Seq<char>) -> int
    decreases ds.len(),
{
    if ds.len() == 0 {
        0
    } else {
        digits_val(ds.drop_last()) * 10 + (ds.last() as u32 - 48)
    }
}

/// Ten to the power `n`.
pub open spec fn pow10(n: nat) -> int
    decreases n,
{
    if n == 0 {
        1
    } else {
        10 * pow10((n - 1) as nat)
    }
}

/// A digit sequence of length `n` holds a value below ten to the `n`.
pub proof fn lemma_digits_val_bound(ds: Seq<char>)
    requires
        forall|j: int| 0 <= j < ds.len() ==> is_digit(ds[j]),
    ensures
        0 <= digits_val(ds) < pow10(ds.len()),
    decreases ds.len(),
{
    if ds.len() > 0 {
        lemma_digits_val_bound(ds.drop_last());
    }
}

/// A digit sequence that starts with a nonzero digit holds a value of at
/// least ten to one less than its length.
pub proof fn lemma_digits_val_lower(ds: Seq<char>)
    requires
        ds.len() > 0,
        forall|j: int| 0 <= j < ds.len() ==> is_digit(ds[j]),
        ds[0] as u32 != 48,
    ensures
        digits_val(ds) >= pow10((ds.len() - 1) as nat),
    decreases ds.len(),
{
    if ds.len() > 1 {
        lemma_digits_val_lower(ds.drop_last());
        lemma_digits_val_bound(ds);
    } else {
        assert(ds.drop_last().len() == 0);
        assert(digits_val(ds.drop_last()) == 0);
        assert(digits_val(ds) == ds.last() as u32 - 48);
        assert(ds.last() == ds[0]);
    }
}

/// Leading zero digits do not change the value.
pub proof fn lemma_digits_leading_zeros(ds: Seq<char>, k: int)
    requires
        0 <= k <= ds.len(),
        forall|j: int| 0 <= j < k ==> ds[j] as u32 == 48,
    ensures
        digits_val(ds) == digits_val(ds.skip(k)),
    decreases ds.len(),
{
    if ds.len() == 0 || k == 0 {
        assert(ds.skip(k) =~= ds);
    } else if ds.len() == k {
        assert(digits_val(ds.skip(k)) == 0);
        lemma_digits_all_zero(ds);
    } else {
        lemma_digits_leading_zeros(ds.drop_last(), k);
        assert(ds.skip(k).drop_last() =~= ds.drop_last().skip(k));
        assert(ds.skip(k).last() == ds.last());
    }
}

/// A sequence of zero digits has value zero.
pub proof fn lemma_digits_all_zero(ds: Seq<char>)
    requires
        forall|j: int| 0 <= j < ds.len() ==> ds[j] as u32 == 48,
    ensures
        digits_val(ds) == 0,
    decreases ds.len(),
{
    if ds.len() > 0 {
        lemma_digits_all_zero(ds.drop_last());
    }
}

/// Powers of ten grow with the exponent.
pub proof fn lemma_pow10_monotone(a: nat, b: nat)
    requires
        a <= b,
    ensures
        0 < pow10(a) <= pow10(b),
    decreases b,
{
    if a < b {
        lemma_pow10_monotone(a, (b - 1) as nat);
    } else {
        lemma_pow10_positive(a);
    }
}

/// Powers of ten are positive.
pub proof fn lemma_pow10_positive(a: nat)
    ensures
        0 < pow10(a),
    decreases a,
{
    if a > 0 {
        lemma_pow10_positive((a - 1) as nat);
    }
}

/// The largest value an `Int` token can hold.
pub open spec fn max_int_value() -> int {
    0x7fff_ffff_ffff_ffff
}

/// The token that a word stands for: a keyword or an identifier.
pub open spec fn spec_keyword(w: Seq<char>) -> TokenM {
    if w == "fn"@ {
        TokenM::Function
    } else if w == "let"@ {
        TokenM::Let
    } else if w == "true"@ {
        TokenM::True
    } else if w == "false"@ {
        TokenM::False
    } else if w == "if"@ {
        TokenM::If
    } else if w == "else"@ {
        TokenM::Else
    } else if w == "return"@ {
        TokenM::Return
    } else if w == "nil"@ {
        TokenM::Nil
    } else {
        TokenM::Identifier(w)
    }
}

/// The next token of a nonempty character sequence that does not start
/// with whitespace, together with how many characters it takes.
pub open spec fn spec_next(cs: Seq<char>) -> (TokenM, int)
    recommends
        cs.len() > 0,
        !is_ws(cs[0]),
{
    let c = cs[0];
    if c == '+' {
        (TokenM::Plus, 1)
    } else if c == ',' {
        (TokenM::Comma, 1)
    } else if c == ';' {
        (TokenM::Semicolon, 1)
    } else if c == '(' {
        (TokenM::LParen, 1)
    } else if c == ')' {
        (TokenM::RParen, 1)
    } else if c == '{' {
        (TokenM::LBrace, 1)
    } else if c == '}' {
        (TokenM::RBrace, 1)
    } else if c == '[' {
        (TokenM::LBracket, 1)
    } else if c == ']' {
        (TokenM::RBracket, 1)
    } else if c == '-' {
        (TokenM::Minus, 1)
    } else if c == '*' {
        (TokenM::Asterisk, 1)
    } else if c == '/' {
        (TokenM::Slash, 1)
    } else if c == ':' {
        (TokenM::Colon, 1)
    } else if c == '<' {
        if cs.len() > 1 && cs[1] == '=' {
            (TokenM::Lte, 2)
        } else {
            (TokenM::Lt, 1)
        }
    } else if c == '>' {
        if cs.len() > 1 && cs[1] == '=' {
            (TokenM::Gte, 2)
        } else {
            (TokenM::Gt, 1)
        }
    } else if c == '=' {
        if cs.len() > 1 && cs[1] == '=' {
            (TokenM::Eq, 2)
        } else {
            (TokenM::Assign, 1)
        }
    } else if c == '!' {
        if cs.len() > 1 && cs[1] == '=' {
            (TokenM::NotEq, 2)
        } else {
            (TokenM::Bang, 1)
        }
    } else if c == '"' {
        let m = count_prefix(cs.skip(1), |x: char| x != '"') as int;
        let body = cs.subrange(1, 1 + m);
        if 1 + m < cs.len() {
            (TokenM::String(body), 2 + m)
        } else {
            (TokenM::String(body), 1 + m)
        }
    } else if is_ident_start(c) {
        let m = count_prefix(cs, |x: char| is_ident_char(x)) as int;
        (spec_keyword(cs.subrange(0, m)), m)
    } else if is_digit(c) {
        let m = count_prefix(cs, |x: char| is_digit(x)) as int;
        let v = digits_val(cs.subrange(0, m));
        if v <= max_int_value() {
            (TokenM::Int(v as i64), m)
        } else {
            (TokenM::Illegal, m)
        }
    } else {
        (TokenM::Illegal, 1)
    }
}

/// The next token takes at least one and at most all characters.
pub proof fn lemma_spec_next_bounds(cs: Seq<char>)
    requires
        cs.len() > 0,
        !is_ws(cs[0]),
    ensures
        1 <= spec_next(cs).1 <= cs.len(),
{
    let c = cs[0];
    if c == '+' || c == ',' || c == ';' || c == '(' || c == ')' || c == '{' || c == '}'
        || c == '[' || c == ']' || c == '-' || c == '*' || c == '/' || c == ':' || c == '<'
        || c == '>' || c == '=' || c == '!' {
    } else if c == '"' {
        lemma_count_prefix(cs.skip(1), |x: char| x != '"');
    } else if is_ident_start(c) {
        lemma_count_prefix(cs, |x: char| is_ident_char(x));
        assert(count_prefix(cs, |x: char| is_ident_char(x)) >= 1);
    } else if is_digit(c) {
        lemma_count_prefix(cs, |x: char| is_digit(x));
        assert(count_prefix(cs, |x: char| is_digit(x)) >= 1);
    }
}

/// The token models of a character sequence: whitespace separates and is
/// dropped, every other character starts a token.
pub open spec fn spec_lex(cs: Seq<char>) -> Seq<TokenM>
    decreases cs.len(),
{
    if cs.len() == 0 {
        Seq::empty()
    } else if is_ws(cs[0]) {
        spec_lex(cs.skip(1))
    } else {
        let (t, n) = spec_next(cs);
        let n1 = if 1 <= n <= cs.len() {
            n
        } else {
            1
        };
        seq![t] + spec_lex(cs.skip(n1))
    }
}

/// The token models of a source string: its characters are filtered to
/// ASCII, then scanned.
pub open spec fn spec_tokens_of(source: Seq<char>) -> Seq<TokenM> {
    spec_lex(ascii_filter(source))
}

/// Turns a source string into the sequence of its tokens.
///
/// Lexing never fails: unrecognized input becomes `Token::Illegal`.
pub struct Lexer {
    pub tokens: Vec<Token>,
}

impl Lexer {
    /// Scans `input` into tokens, dropping non-ASCII characters and
    /// whitespace.
    pub fn new(input: &str) -> (r: Self)
        ensures
            tokens_view(r.tokens@) == spec_tokens_of(input@),
    {
        // Keep only the ASCII characters of the source.
        let n = input.unicode_len();
        let mut cs: Vec<char> = Vec::new();
        let mut i: usize = 0;
        while i < n
            invariant
                i <= n,
                n == input@.len(),
                cs@ == ascii_filter(input@.subrange(0, i as int)),
            decreases n - i,
        {
            let c = input.get_char(i);
            proof {
                assert(input@.subrange(0, i + 1).drop_last() =~= input@.subrange(0, i as int));
                assert(input@.subrange(0, i + 1).last() == input@[i as int]);
            }
            if is_ascii_char_exec(c) {
                cs.push(c);
            }
            i = i + 1;
        }
        proof {
            assert(input@.subrange(0, input@.len() as int) =~= input@);
        }

        // Scan the filtered characters.
        let end = cs.len();
        let mut tokens: Vec<Token> = Vec::new();
        let mut pos: usize = 0;
        proof {
            assert(cs@.skip(0) =~= cs@);
            assert(tokens_view(tokens@) =~= Seq::<TokenM>::empty());
            assert(Seq::<TokenM>::empty() + spec_lex(cs@) =~= spec_lex(cs@));
        }
        while pos < end
            invariant
                pos <= end,
                end == cs@.len(),
                tokens_view(tokens@) + spec_lex(cs@.skip(pos as int)) == spec_lex(cs@),
            decreases end - pos,
        {
            let c = cs[pos];
            if is_ws_char(c) {
                proof {
                    assert(cs@.skip(pos as int).skip(1) =~= cs@.skip(pos + 1));
                }
                pos = pos + 1;
            } else {
                let (token, next) = next_token(&cs, pos);
                proof {
                    let suffix = cs@.skip(pos as int);
                    lemma_spec_next_bounds(suffix);
                    assert(suffix.skip(next - pos) =~= cs@.skip(next as int));
                    assert(spec_lex(suffix) == seq![token@] + spec_lex(cs@.skip(next as int)));
                    assert(tokens_view(tokens@.push(token)) =~= tokens_view(tokens@).push(token@));
                    assert(tokens_view(tokens@).push(token@) + spec_lex(cs@.skip(next as int))
                        =~= tokens_view(tokens@) + spec_lex(cs@.skip(pos as int)));
                }
                tokens.push(token);
                pos = next;
            }
        }
        proof {
            assert(cs@.skip(end as int) =~= Seq::<char>::empty());
            assert(tokens_view(tokens@) + spec_lex(cs@.skip(end as int)) =~= tokens_view(tokens@));
        }
        Lexer { tokens }
    }
}

/// Scans one token starting at `pos`.
fn next_token(cs: &Vec<char>, pos: usize) -> (r: (Token, usize))
    requires
        pos < cs@.len(),
        !is_ws(cs@[pos as int]),
    ensures
        ({
            let (tm, n) = spec_next(cs@.skip(pos as int));
            r.0@ == tm && r.1 == pos + n && pos < r.1 <= cs@.len()
        }),
{
    proof {
        lemma_spec_next_bounds(cs@.skip(pos as int));
    }
    let len = cs.len();
    let c = cs[pos];
    match c {
        '+' => (Token::Plus, pos + 1),
        ',' => (Token::Comma, pos + 1),
        ';' => (Token::Semicolon, pos + 1),
        '(' => (Token::LParen, pos + 1),
        ')' => (Token::RParen, pos + 1),
        '{' => (Token::LBrace, pos + 1),
        '}' => (Token::RBrace, pos + 1),
        '[' => (Token::LBracket, pos + 1),
        ']' => (Token::RBracket, pos + 1),
        '-' => (Token::Minus, pos + 1),
        '*' => (Token::Asterisk, pos + 1),
        '/' => (Token::Slash, pos + 1),
        ':' => (Token::Colon, pos + 1),
        '<' => {
            if pos + 1 < cs.len() && cs[pos + 1] == '=' {
                (Token::Lte, pos + 2)
            } else {
                (Token::Lt, pos + 1)
            }
        },
        '>' => {
            if pos + 1 < cs.len() && cs[pos + 1] == '=' {
                (Token::Gte, pos + 2)
            } else {
                (Token::Gt, pos + 1)
            }
        },
        '=' => {
            if pos + 1 < cs.len() && cs[pos + 1] == '=' {
                (Token::Eq, pos + 2)
            } else {
                (Token::Assign, pos + 1)
            }
        },
        '!' => {
            if pos + 1 < cs.len() && cs[pos + 1] == '=' {
                (Token::NotEq, pos + 2)
            } else {
                (Token::Bang, pos + 1)
            }
        },
        '"' => scan_string(cs, pos),
        _ => {
            if is_ident_start_char(c) {
                scan_word(cs, pos)
            } else if is_digit_char(c) {
                scan_number(cs, pos)
            } else {
                (Token::Illegal, pos + 1)
            }
        },
    }
}

/// Scans a string literal: everything up to the next quote, which is
/// consumed too when it is there.
fn scan_string(cs: &Vec<char>, pos: usize) -> (r: (Token, usize))
    requires
        pos < cs@.len(),
        cs@[pos as int] == '"',
    ensures
        ({
            let (tm, n) = spec_next(cs@.skip(pos as int));
            r.0@ == tm && r.1 == pos + n && pos < r.1 <= cs@.len()
        }),
{
    let ghost suffix = cs@.skip(pos as int);
    let ghost p = |x: char| x != '"';
    let len = cs.len();
    let mut body = String::new();
    let mut j: usize = pos + 1;
    while j < cs.len() && cs[j] != '"'
        invariant
            pos + 1 <= j <= cs@.len(),
            forall|x: int| pos + 1 <= x < j ==> cs@[x] != '"',
            body@ == cs@.subrange(pos + 1, j as int),
        decreases cs@.len() - j,
    {
        let c = cs[j];
        push_char(&mut body, c);
        proof {
            assert(cs@.subrange(pos + 1, j + 1) =~= cs@.subrange(pos + 1, j as int).push(cs@[j as int]));
        }
        j = j + 1;
    }
    proof {
        assert forall|x: int| 0 <= x < j - pos - 1 implies p(suffix.skip(1)[x]) by {
            assert(suffix.skip(1)[x] == cs@[pos + 1 + x]);
        }
        if j < cs@.len() {
            assert(suffix.skip(1)[j - pos - 1] == cs@[j as int]);
        }
        lemma_count_prefix_determined(suffix.skip(1), p, j - pos - 1);
        assert(suffix.subrange(1, 1 + (j - pos - 1)) =~= cs@.subrange(pos + 1, j as int));
    }
    if j < cs.len() {
        (Token::String(body), j + 1)
    } else {
        (Token::String(body), j)
    }
}

/// Scans an identifier or keyword.
fn scan_word(cs: &Vec<char>, pos: usize) -> (r: (Token, usize))
    requires
        pos < cs@.len(),
        is_ident_start(cs@[pos as int]),
    ensures
        ({
            let (tm, n) = spec_next(cs@.skip(pos as int));
            r.0@ == tm && r.1 == pos + n && pos < r.1 <= cs@.len()
        }),
{
    let ghost suffix = cs@.skip(pos as int);
    let ghost p = |x: char| is_ident_char(x);
    let len = cs.len();
    let mut word = String::new();
    let mut j: usize = pos;
    while j < cs.len() && is_ident_char_exec(cs[j])
        invariant
            pos <= j <= cs@.len(),
            forall|x: int| pos <= x < j ==> is_ident_char(cs@[x]),
            word@ == cs@.subrange(pos as int, j as int),
        decreases cs@.len() - j,
    {
        let c = cs[j];
        push_char(&mut word, c);
        proof {
            assert(cs@.subrange(pos as int, j + 1) =~= cs@.subrange(pos as int, j as int).push(cs@[j as int]));
        }
        j = j + 1;
    }
    proof {
        assert forall|x: int| 0 <= x < j - pos implies p(suffix[x]) by {
            assert(suffix[x] == cs@[pos + x]);
        }
        if j < cs@.len() {
            assert(suffix[j - pos] == cs@[j as int]);
        }
        lemma_count_prefix_determined(suffix, p, j - pos);
        assert(suffix.subrange(0, j - pos) =~= cs@.subrange(pos as int, j as int));
        assert(j > pos);
    }
    (keyword_token(word), j)
}

/// The keyword token a word stands for, or an identifier token.
fn keyword_token(word: String) -> (t: Token)
    ensures
        t@ == spec_keyword(word@),
{
    if word == String::from_str("fn") {
        Token::Function
    } else if word == String::from_str("let") {
        Token::Let
    } else if word == String::from_str("true") {
        Token::True
    } else if word == String::from_str("false") {
        Token::False
    } else if word == String::from_str("if") {
        Token::If
    } else if word == String::from_str("else") {
        Token::Else
    } else if word == String::from_str("return") {
        Token::Return
    } else if word == String::from_str("nil") {
        Token::Nil
    } else {
        Token::Identifier(Identifier::new(word))
    }
}

/// Scans an integer literal; a value over the signed 64-bit maximum
/// becomes `Token::Illegal`.
fn scan_number(cs: &Vec<char>, pos: usize) -> (r: (Token, usize))
    requires
        pos < cs@.len(),
        is_digit(cs@[pos as int]),
    ensures
        ({
            let (tm, n) = spec_next(cs@.skip(pos as int));
            r.0@ == tm && r.1 == pos + n && pos < r.1 <= cs@.len()
        }),
{
    let ghost suffix = cs@.skip(pos as int);
    let ghost p = |x: char| is_digit(x);

    // Find the end of the digit run.
    let mut j: usize = pos;
    while j < cs.len() && is_digit_char(cs[j])
        invariant
            pos <= j <= cs@.len(),
            forall|x: int| pos <= x < j ==> is_digit(cs@[x]),
        decreases cs@.len() - j,
    {
        j = j + 1;
    }
    proof {
        assert forall|x: int| 0 <= x < j - pos implies p(suffix[x]) by {
            assert(suffix[x] == cs@[pos + x]);
        }
        if j < cs@.len() {
            assert(suffix[j - pos] == cs@[j as int]);
        }
        lemma_count_prefix_determined(suffix, p, j - pos);
        assert(j > pos);
    }
    let end = j;
    let ghost prefix = cs@.subrange(pos as int, end as int);
    proof {
        assert(suffix.subrange(0, end - pos) =~= prefix);
    }

    // Skip leading zeros; they do not change the value.
    let mut k: usize = pos;
    while k < end && cs[k] as u32 == 48
        invariant
            pos <= k <= end,
            end <= cs@.len(),
            forall|x: int| pos <= x < k ==> cs@[x] as u32 == 48,
        decreases end - k,
    {
        k = k + 1;
    }
    proof {
        assert forall|x: int| 0 <= x < k - pos implies prefix[x] as u32 == 48 by {
            assert(prefix[x] == cs@[pos + x]);
        }
        lemma_digits_leading_zeros(prefix, k - pos);
        assert(prefix.skip(k - pos) =~= cs@.subrange(k as int, end as int));
    }
    let ghost sig = cs@.subrange(k as int, end as int);

    if end - k > 19 {
        // At least twenty significant digits: the value is over the
        // signed 64-bit maximum.
        proof {
            assert(forall|x: int| 0 <= x < sig.len() ==> is_digit(#[trigger] sig[x]));
            assert(sig[0] == cs@[k as int]);
            assert(sig[0] as u32 != 48);
            lemma_digits_val_lower(sig);
            lemma_pow10_monotone(19, (sig.len() - 1) as nat);
            assert(pow10(19) == 10000000000000000000) by {
                reveal_with_fuel(pow10, 20);
            }
        }
        (Token::Illegal, end)
    } else {
        // At most nineteen significant digits: they fit an unsigned
        // 64-bit accumulator.
        let mut acc: u64 = 0;
        let mut m: usize = k;
        proof {
            assert(forall|x: int| 0 <= x < sig.len() ==> is_digit(#[trigger] sig[x]));
        }
        while m < end
            invariant
                k <= m <= end,
                end <= cs@.len(),
                end - k <= 19,
                sig == cs@.subrange(k as int, end as int),
                forall|x: int| 0 <= x < sig.len() ==> is_digit(#[trigger] sig[x]),
                acc == digits_val(cs@.subrange(k as int, m as int)),
                acc < pow10((m - k) as nat),
            decreases end - m,
        {
            proof {
                assert(sig[m - k] == cs@[m as int]);
                assert(is_digit(cs@[m as int]));
                lemma_pow10_monotone((m - k) as nat, 18);
                assert(pow10(18) == 1000000000000000000) by {
                    reveal_with_fuel(pow10, 19);
                }
                assert(cs@.subrange(k as int, m + 1).drop_last() =~= cs@.subrange(k as int, m as int));
                assert(cs@.subrange(k as int, m + 1).last() == cs@[m as int]);
            }
            let d = cs[m] as u32 - 48;
            acc = acc * 10 + (d as u64);
            m = m + 1;
        }
        proof {
            assert(cs@.subrange(k as int, end as int) =~= sig);
            lemma_digits_leading_zeros(prefix, k - pos);
        }
        if acc > 9223372036854775807u64 {
            (Token::Illegal, end)
        } else {
            (Token::Int(acc as i64), end)
        }
    }
}

} // verus!
