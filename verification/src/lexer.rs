//! Lexer: turns source text into an ordered token stream with per-token
//! source line numbers.
//!
//! Tokenization is total: input that matches no rule becomes a lex-error
//! token rather than aborting, so downstream consumers can report the exact
//! failing line while still seeing the rest of the stream.
//!
//! The rules, applied at each position by longest match:
//! - a run of space, tab, newline or form-feed is a single separator token;
//! - `(`, `)`, `.`, `=` are single fixed tokens, and the exact word `nil`
//!   (when not part of a longer identifier run) is the nil literal;
//! - a signed, optionally fractional decimal run is a number, at higher
//!   priority than the identifier class when both match the same length;
//! - an identifier is a maximal run of letters, digits and the symbols
//!   `% ^ < > + - / *`;
//! - a string is a span opened by `"` or `'` and closed by the last matching
//!   quote character before the end of the line (quotes have no escapes);
//! - anything else is a one-character lex-error token.

use vstd::prelude::*;

verus! {

/// Extra lexer state: the running newline count used for line tracking.
pub struct ExtraLexInfo {
    pub line_count: u32,
}

/// The kind of a token.
#[derive(Clone, Copy, PartialEq, Eq, Structural, Debug)]
pub enum Token {
    Open,
    Close,
    Dot,
    Equal,
    Nil,
    String,
    Number,
    Id,
    Error,
    Sep,
}

/// One token: its kind, the exact source slice it matched, and the 1-based
/// line number at which it starts.
#[derive(Debug)]
pub struct TokenInfo {
    pub token: Token,
    pub string: std::string::String,
    pub line: u32,
}

/// Mathematical model of a token: kind, matched text, starting line.
pub ghost struct TokenModel {
    pub token: Token,
    pub text: Seq<char>,
    pub line: int,
}

impl TokenInfo {
    /// The token as its mathematical model.
    pub open spec fn model(&self) -> TokenModel {
        TokenModel { token: self.token, text: self.string@, line: self.line as int }
    }
}

/// The models of a whole token stream, in order.
pub open spec fn stream_model(toks: Seq<TokenInfo>) -> Seq<TokenModel> {
    Seq::new(toks.len(), |i: int| toks[i].model())
}

pub open spec fn spec_is_sep(c: char) -> bool {
    c == ' ' || c == '\t' || c == '\n' || c == '\u{c}'
}

pub open spec fn spec_is_digit(c: char) -> bool {
    '0' <= c && c <= '9'
}

pub open spec fn spec_is_ident(c: char) -> bool {
    spec_is_digit(c) || ('a' <= c && c <= 'z') || ('A' <= c && c <= 'Z') || c == '%' || c == '^'
        || c == '<' || c == '>' || c == '+' || c == '-' || c == '/' || c == '*'
}

pub open spec fn spec_is_quote(c: char) -> bool {
    c == '"' || c == '\''
}

/// End of the run of separator characters starting at `i`.
pub open spec fn spec_sep_end(s: Seq<char>, i: int) -> int
    decreases s.len() - i when 0 <= i <= s.len()
{
    if i < s.len() && spec_is_sep(s[i]) {
        spec_sep_end(s, i + 1)
    } else {
        i
    }
}

/// End of the run of decimal digits starting at `i`.
pub open spec fn spec_digit_end(s: Seq<char>, i: int) -> int
    decreases s.len() - i when 0 <= i <= s.len()
{
    if i < s.len() && spec_is_digit(s[i]) {
        spec_digit_end(s, i + 1)
    } else {
        i
    }
}

/// End of the run of identifier characters starting at `i`.
pub open spec fn spec_ident_end(s: Seq<char>, i: int) -> int
    decreases s.len() - i when 0 <= i <= s.len()
{
    if i < s.len() && spec_is_ident(s[i]) {
        spec_ident_end(s, i + 1)
    } else {
        i
    }
}

/// End of the longest number-shaped prefix starting at `i`: an optional sign,
/// an optional integer part followed by a dot, and a mandatory digit run.
/// Returns `i` itself when no number starts here.
pub open spec fn spec_num_end(s: Seq<char>, i: int) -> int {
    let j = if i < s.len() && (s[i] == '+' || s[i] == '-') {
        i + 1
    } else {
        i
    };
    let d1 = spec_digit_end(s, j);
    let frac = if d1 < s.len() && s[d1] == '.' {
        spec_digit_end(s, d1 + 1)
    } else {
        d1 + 1
    };
    if d1 < s.len() && s[d1] == '.' && frac > d1 + 1 {
        frac
    } else if d1 > j {
        d1
    } else {
        i
    }
}

/// Index of the first newline at or after `i`, or the length of the input.
pub open spec fn spec_line_seg_end(s: Seq<char>, i: int) -> int
    decreases s.len() - i when 0 <= i <= s.len()
{
    if i < s.len() && s[i] != '\n' {
        spec_line_seg_end(s, i + 1)
    } else {
        i
    }
}

/// Index of the last occurrence of `q` in `s[lo..hi]`, or -1 when none.
pub open spec fn spec_last_quote(s: Seq<char>, q: char, lo: int, hi: int) -> int
    decreases hi - lo when 0 <= lo <= hi <= s.len()
{
    if hi <= lo {
        -1
    } else if s[hi - 1] == q {
        hi - 1
    } else {
        spec_last_quote(s, q, lo, hi - 1)
    }
}

/// Number of newline characters in `s[a..b)`.
pub open spec fn spec_newlines(s: Seq<char>, a: int, b: int) -> int
    decreases b - a when 0 <= a <= b <= s.len()
{
    if a >= b {
        0
    } else {
        spec_newlines(s, a, b - 1) + if s[b - 1] == '\n' {
            1int
        } else {
            0int
        }
    }
}

/// The 1-based line number of position `i`.
pub open spec fn spec_line_of(s: Seq<char>, i: int) -> int {
    1 + spec_newlines(s, 0, i)
}

/// The token kind starting at position `i` and the position just past it.
/// Requires a valid in-range position; always consumes at least one
/// character.
pub open spec fn spec_token_at(s: Seq<char>, i: int) -> (Token, int) {
    let c = s[i];
    if spec_is_sep(c) {
        (Token::Sep, spec_sep_end(s, i))
    } else if c == '(' {
        (Token::Open, i + 1)
    } else if c == ')' {
        (Token::Close, i + 1)
    } else if c == '=' {
        (Token::Equal, i + 1)
    } else if spec_is_quote(c) {
        let k = spec_last_quote(s, c, i + 1, spec_line_seg_end(s, i + 1));
        if k >= 0 {
            (Token::String, k + 1)
        } else {
            (Token::Error, i + 1)
        }
    } else {
        let ne = spec_num_end(s, i);
        let ie = spec_ident_end(s, i);
        if ne > i && ne >= ie {
            (Token::Number, ne)
        } else if ie > i {
            if s.subrange(i, ie) == seq!['n', 'i', 'l'] {
                (Token::Nil, ie)
            } else {
                (Token::Id, ie)
            }
        } else if c == '.' {
            (Token::Dot, i + 1)
        } else {
            (Token::Error, i + 1)
        }
    }
}

/// The full token stream of `s` from position `i` on: each token's kind, its
/// exact source slice, and the 1-based line at which it starts.
pub open spec fn spec_tokens(s: Seq<char>, i: int) -> Seq<TokenModel>
    decreases s.len() - i when 0 <= i <= s.len()
    via spec_tokens_decreases
{
    if i >= s.len() {
        Seq::empty()
    } else {
        let (t, e) = spec_token_at(s, i);
        seq![TokenModel { token: t, text: s.subrange(i, e), line: spec_line_of(s, i) }]
            + spec_tokens(s, e)
    }
}

#[via_fn]
proof fn spec_tokens_decreases(s: Seq<char>, i: int) {
    if 0 <= i < s.len() {
        lemma_token_at_bounds(s, i);
    }
}

proof fn lemma_sep_end_bounds(s: Seq<char>, i: int)
    requires
        0 <= i <= s.len(),
    ensures
        i <= spec_sep_end(s, i) <= s.len(),
    decreases s.len() - i,
{
    if i < s.len() && spec_is_sep(s[i]) {
        lemma_sep_end_bounds(s, i + 1);
    }
}

proof fn lemma_digit_end_bounds(s: Seq<char>, i: int)
    requires
        0 <= i <= s.len(),
    ensures
        i <= spec_digit_end(s, i) <= s.len(),
    decreases s.len() - i,
{
    if i < s.len() && spec_is_digit(s[i]) {
        lemma_digit_end_bounds(s, i + 1);
    }
}

proof fn lemma_ident_end_bounds(s: Seq<char>, i: int)
    requires
        0 <= i <= s.len(),
    ensures
        i <= spec_ident_end(s, i) <= s.len(),
    decreases s.len() - i,
{
    if i < s.len() && spec_is_ident(s[i]) {
        lemma_ident_end_bounds(s, i + 1);
    }
}

proof fn lemma_line_seg_end_bounds(s: Seq<char>, i: int)
    requires
        0 <= i <= s.len(),
    ensures
        i <= spec_line_seg_end(s, i) <= s.len(),
    decreases s.len() - i,
{
    if i < s.len() && s[i] != '\n' {
        lemma_line_seg_end_bounds(s, i + 1);
    }
}

proof fn lemma_last_quote_bounds(s: Seq<char>, q: char, lo: int, hi: int)
    requires
        0 <= lo <= hi <= s.len(),
    ensures
        spec_last_quote(s, q, lo, hi) == -1 || lo <= spec_last_quote(s, q, lo, hi) < hi,
    decreases hi - lo,
{
    if hi > lo && s[hi - 1] != q {
        lemma_last_quote_bounds(s, q, lo, hi - 1);
    }
}

proof fn lemma_num_end_bounds(s: Seq<char>, i: int)
    requires
        0 <= i < s.len(),
    ensures
        spec_num_end(s, i) == i || i < spec_num_end(s, i) <= s.len(),
{
    let j = if s[i] == '+' || s[i] == '-' {
        i + 1
    } else {
        i
    };
    lemma_digit_end_bounds(s, j);
    let d1 = spec_digit_end(s, j);
    if d1 < s.len() && s[d1] == '.' {
        lemma_digit_end_bounds(s, d1 + 1);
    }
}

/// Every token starting inside the input consumes at least one character and
/// ends inside the input.
pub proof fn lemma_token_at_bounds(s: Seq<char>, i: int)
    requires
        0 <= i < s.len(),
    ensures
        i < spec_token_at(s, i).1 <= s.len(),
{
    let c = s[i];
    if spec_is_sep(c) {
        lemma_sep_end_bounds(s, i);
        assert(spec_sep_end(s, i) == spec_sep_end(s, i + 1));
        lemma_sep_end_bounds(s, i + 1);
    } else if c == '(' || c == ')' || c == '=' {
    } else if spec_is_quote(c) {
        lemma_line_seg_end_bounds(s, i + 1);
        lemma_last_quote_bounds(s, c, i + 1, spec_line_seg_end(s, i + 1));
    } else {
        lemma_num_end_bounds(s, i);
        lemma_ident_end_bounds(s, i);
    }
}

} // verus!

verus! {

proof fn lemma_newlines_le(s: Seq<char>, a: int, b: int)
    requires
        0 <= a <= b <= s.len(),
    ensures
        0 <= spec_newlines(s, a, b) <= b - a,
    decreases b - a,
{
    if a < b {
        lemma_newlines_le(s, a, b - 1);
    }
}

fn is_sep_c(c: char) -> (r: bool)
    ensures
        r == spec_is_sep(c),
{
    c == ' ' || c == '\t' || c == '\n' || c == '\u{c}'
}

fn is_digit_c(c: char) -> (r: bool)
    ensures
        r == spec_is_digit(c),
{
    '0' <= c && c <= '9'
}

fn is_ident_c(c: char) -> (r: bool)
    ensures
        r == spec_is_ident(c),
{
    is_digit_c(c) || ('a' <= c && c <= 'z') || ('A' <= c && c <= 'Z') || c == '%' || c == '^'
        || c == '<' || c == '>' || c == '+' || c == '-' || c == '/' || c == '*'
}

fn sep_end(s: &str, n: usize, i: usize) -> (e: usize)
    requires
        n == s@.len(),
        i <= n,
    ensures
        i <= e <= n,
        e as int == spec_sep_end(s@, i as int),
{
    let mut j = i;
    loop
        invariant
            i <= j <= n,
            n == s@.len(),
            spec_sep_end(s@, i as int) == spec_sep_end(s@, j as int),
        ensures
            j >= n || !spec_is_sep(s@[j as int]),
        decreases n - j,
    {
        if j >= n {
            break ;
        }
        let c = s.get_char(j);
        if !is_sep_c(c) {
            break ;
        }
        proof {
            assert(spec_sep_end(s@, j as int) == spec_sep_end(s@, j + 1 as int));
        }
        j += 1;
    }
    proof {
        assert(spec_sep_end(s@, j as int) == j as int);
    }
    j
}

fn digit_end(s: &str, n: usize, i: usize) -> (e: usize)
    requires
        n == s@.len(),
        i <= n,
    ensures
        i <= e <= n,
        e as int == spec_digit_end(s@, i as int),
{
    let mut j = i;
    loop
        invariant
            i <= j <= n,
            n == s@.len(),
            spec_digit_end(s@, i as int) == spec_digit_end(s@, j as int),
        ensures
            j >= n || !spec_is_digit(s@[j as int]),
        decreases n - j,
    {
        if j >= n {
            break ;
        }
        let c = s.get_char(j);
        if !is_digit_c(c) {
            break ;
        }
        proof {
            assert(spec_digit_end(s@, j as int) == spec_digit_end(s@, j + 1 as int));
        }
        j += 1;
    }
    proof {
        assert(spec_digit_end(s@, j as int) == j as int);
    }
    j
}

fn ident_end(s: &str, n: usize, i: usize) -> (e: usize)
    requires
        n == s@.len(),
        i <= n,
    ensures
        i <= e <= n,
        e as int == spec_ident_end(s@, i as int),
{
    let mut j = i;
    loop
        invariant
            i <= j <= n,
            n == s@.len(),
            spec_ident_end(s@, i as int) == spec_ident_end(s@, j as int),
        ensures
            j >= n || !spec_is_ident(s@[j as int]),
        decreases n - j,
    {
        if j >= n {
            break ;
        }
        let c = s.get_char(j);
        if !is_ident_c(c) {
            break ;
        }
        proof {
            assert(spec_ident_end(s@, j as int) == spec_ident_end(s@, j + 1 as int));
        }
        j += 1;
    }
    proof {
        assert(spec_ident_end(s@, j as int) == j as int);
    }
    j
}

fn num_end(s: &str, n: usize, i: usize) -> (e: usize)
    requires
        n == s@.len(),
        i < n,
    ensures
        e as int == spec_num_end(s@, i as int),
        e == i || i < e <= n,
{
    let c = s.get_char(i);
    let j = if c == '+' || c == '-' {
        i + 1
    } else {
        i
    };
    let d1 = digit_end(s, n, j);
    if d1 < n {
        let dc = s.get_char(d1);
        if dc == '.' {
            let d2 = digit_end(s, n, d1 + 1);
            if d2 > d1 + 1 {
                return d2;
            }
        }
    }
    if d1 > j {
        d1
    } else {
        i
    }
}

fn line_seg_end(s: &str, n: usize, i: usize) -> (e: usize)
    requires
        n == s@.len(),
        i <= n,
    ensures
        i <= e <= n,
        e as int == spec_line_seg_end(s@, i as int),
{
    let mut j = i;
    loop
        invariant
            i <= j <= n,
            n == s@.len(),
            spec_line_seg_end(s@, i as int) == spec_line_seg_end(s@, j as int),
        ensures
            j >= n || s@[j as int] == '\n',
        decreases n - j,
    {
        if j >= n {
            break ;
        }
        let c = s.get_char(j);
        if c == '\n' {
            break ;
        }
        proof {
            assert(spec_line_seg_end(s@, j as int) == spec_line_seg_end(s@, j + 1 as int));
        }
        j += 1;
    }
    proof {
        assert(spec_line_seg_end(s@, j as int) == j as int);
    }
    j
}

fn last_quote(s: &str, q: char, lo: usize, hi: usize) -> (r: Option<usize>)
    requires
        lo <= hi <= s@.len(),
    ensures
        match r {
            Some(k) => k as int == spec_last_quote(s@, q, lo as int, hi as int),
            None => spec_last_quote(s@, q, lo as int, hi as int) == -1,
        },
{
    let mut j = hi;
    loop
        invariant
            lo <= j <= hi <= s@.len(),
            spec_last_quote(s@, q, lo as int, hi as int) == spec_last_quote(
                s@,
                q,
                lo as int,
                j as int,
            ),
        decreases j,
    {
        if j <= lo {
            return None;
        }
        let c = s.get_char(j - 1);
        if c == q {
            return Some(j - 1);
        }
        j -= 1;
    }
}

fn scan_token(s: &str, n: usize, i: usize) -> (r: (Token, usize))
    requires
        n == s@.len(),
        i < n,
    ensures
        (r.0, r.1 as int) == spec_token_at(s@, i as int),
        i < r.1 <= n,
{
    proof {
        lemma_token_at_bounds(s@, i as int);
    }
    let c = s.get_char(i);
    if is_sep_c(c) {
        (Token::Sep, sep_end(s, n, i))
    } else if c == '(' {
        (Token::Open, i + 1)
    } else if c == ')' {
        (Token::Close, i + 1)
    } else if c == '=' {
        (Token::Equal, i + 1)
    } else if c == '"' || c == '\'' {
        let seg = line_seg_end(s, n, i + 1);
        match last_quote(s, c, i + 1, seg) {
            Some(k) => (Token::String, k + 1),
            None => (Token::Error, i + 1),
        }
    } else {
        let ne = num_end(s, n, i);
        let ie = ident_end(s, n, i);
        if ne > i && ne >= ie {
            (Token::Number, ne)
        } else if ie > i {
            let is_nil = ie - i == 3 && s.get_char(i) == 'n' && s.get_char(i + 1) == 'i'
                && s.get_char(i + 2) == 'l';
            proof {
                if is_nil {
                    assert(s@.subrange(i as int, ie as int) =~= seq!['n', 'i', 'l']);
                } else {
                    if s@.subrange(i as int, ie as int) == seq!['n', 'i', 'l'] {
                        assert(s@.subrange(i as int, ie as int).len() == 3);
                        assert(s@.subrange(i as int, ie as int)[0] == s@[i as int]);
                        assert(s@.subrange(i as int, ie as int)[1] == s@[i as int + 1]);
                        assert(s@.subrange(i as int, ie as int)[2] == s@[i as int + 2]);
                        assert(false);
                    }
                }
            }
            if is_nil {
                (Token::Nil, ie)
            } else {
                (Token::Id, ie)
            }
        } else if c == '.' {
            (Token::Dot, i + 1)
        } else {
            (Token::Error, i + 1)
        }
    }
}

/// Tokenize the whole input eagerly. Total: unrecognized input becomes a
/// lex-error token. The result is exactly the token stream described by
/// `spec_tokens`: every character of the input is covered by exactly one
/// token, in order, with 1-based starting line numbers.
pub fn tokenify(input: &str) -> (r: Vec<TokenInfo>)
    requires
        input@.len() < u32::MAX as nat,
    ensures
        stream_model(r@) == spec_tokens(input@, 0),
{
    let n = input.unicode_len();
    let mut ret: Vec<TokenInfo> = Vec::new();
    let mut lex = ExtraLexInfo { line_count: 1 };
    let mut i: usize = 0;
    while i < n
        invariant
            i <= n,
            n == input@.len(),
            n < u32::MAX,
            lex.line_count as int == spec_line_of(input@, i as int),
            stream_model(ret@) + spec_tokens(input@, i as int) == spec_tokens(input@, 0),
        decreases n - i,
    {
        let (tok, e) = scan_token(input, n, i);
        let text = input.substring_char(i, e).to_owned();
        let info = TokenInfo { token: tok, string: text, line: lex.line_count };
        proof {
            assert(stream_model(ret@.push(info)) =~= stream_model(ret@) + seq![info.model()]);
            assert(spec_tokens(input@, i as int) == seq![info.model()] + spec_tokens(
                input@,
                e as int,
            ));
            assert(stream_model(ret@.push(info)) + spec_tokens(input@, e as int)
                =~= (stream_model(ret@) + spec_tokens(input@, i as int)));
        }
        ret.push(info);
        let mut j = i;
        while j < e
            invariant
                i <= j <= e <= n,
                n == input@.len(),
                n < u32::MAX,
                lex.line_count as int == spec_line_of(input@, j as int),
            decreases e - j,
        {
            proof {
                lemma_newlines_le(input@, 0, j as int + 1);
            }
            let c = input.get_char(j);
            if c == '\n' {
                lex.line_count += 1;
            }
            j += 1;
        }
        i = e;
    }
    proof {
        assert(spec_tokens(input@, n as int) =~= Seq::<TokenModel>::empty());
        assert(stream_model(ret@) =~= stream_model(ret@) + spec_tokens(input@, n as int));
    }
    ret
}

/// The source text reassembled from a stream of token models, in order.
pub open spec fn concat_texts(ts: Seq<TokenModel>) -> Seq<char>
    decreases ts.len(),
{
    if ts.len() == 0 {
        Seq::empty()
    } else {
        ts[0].text + concat_texts(ts.drop_first())
    }
}

proof fn lemma_tokens_cover_from(s: Seq<char>, i: int)
    requires
        0 <= i <= s.len(),
    ensures
        concat_texts(spec_tokens(s, i)) == s.subrange(i, s.len() as int),
    decreases s.len() - i,
{
    if i >= s.len() {
        assert(concat_texts(spec_tokens(s, i)) =~= s.subrange(i, s.len() as int));
    } else {
        let (t, e) = spec_token_at(s, i);
        lemma_token_at_bounds(s, i);
        lemma_tokens_cover_from(s, e);
        let tm = TokenModel { token: t, text: s.subrange(i, e), line: spec_line_of(s, i) };
        let whole = seq![tm] + spec_tokens(s, e);
        assert(whole.drop_first() =~= spec_tokens(s, e));
        assert(s.subrange(i, e) + s.subrange(e, s.len() as int) =~= s.subrange(
            i,
            s.len() as int,
        ));
    }
}

/// Law: re-concatenating all token slices of a tokenized input, in order,
/// reproduces the original source text exactly, whitespace runs included.
pub proof fn lemma_tokenize_covers(s: Seq<char>)
    ensures
        concat_texts(spec_tokens(s, 0)) == s,
{
    lemma_tokens_cover_from(s, 0);
    assert(s.subrange(0, s.len() as int) =~= s);
}

} // verus!

verus! {

impl Clone for TokenInfo {
    /// Clones are exact: the copy has the same model as the original.
    fn clone(&self) -> (r: Self)
        ensures
            r.model() == self.model(),
    {
        TokenInfo { token: self.token, string: self.string.clone(), line: self.line }
    }
}

} // verus!

verus! {

impl Token {
    /// The display label of each token kind.
    pub open spec fn spec_label(&self) -> Seq<char> {
        match self {
            Token::Open => "("@,
            Token::Close => ")"@,
            Token::Equal => "="@,
            Token::Nil => "literal"@,
            Token::Dot => "dot"@,
            Token::String => "string"@,
            Token::Number => "number"@,
            Token::Id => "id"@,
            Token::Error => "ERROR"@,
            Token::Sep => " "@,
        }
    }

    /// The token kind rendered as its display label.
    pub fn label(&self) -> (r: std::string::String)
        ensures
            r@ == self.spec_label(),
    {
        let s: &str = match self {
            Token::Open => "(",
            Token::Close => ")",
            Token::Equal => "=",
            Token::Nil => "literal",
            Token::Dot => "dot",
            Token::String => "string",
            Token::Number => "number",
            Token::Id => "id",
            Token::Error => "ERROR",
            Token::Sep => " ",
        };
        s.to_owned()
    }
}

} // verus!

verus! {

proof fn lemma_newlines_split(s: Seq<char>, a: int, b: int, c: int)
    requires
        0 <= a <= b <= c <= s.len(),
    ensures
        spec_newlines(s, a, c) == spec_newlines(s, a, b) + spec_newlines(s, b, c),
    decreases c - b,
{
    if b < c {
        lemma_newlines_split(s, a, b, c - 1);
    }
}

/// Every token of the stream from `i` on starts at or after line
/// `spec_line_of(s, i)`, and the lines are non-decreasing in stream
/// order.
proof fn lemma_tokens_lines_from(s: Seq<char>, i: int)
    requires
        0 <= i <= s.len(),
    ensures
        forall|a: int|
            0 <= a < spec_tokens(s, i).len() ==> (#[trigger] spec_tokens(s, i)[a]).line
                >= spec_line_of(s, i),
        forall|a: int, b: int|
            0 <= a <= b < spec_tokens(s, i).len() ==> spec_tokens(s, i)[a].line <= spec_tokens(
                s,
                i,
            )[b].line,
    decreases s.len() - i,
{
    if i < s.len() {
        let (t, e) = spec_token_at(s, i);
        lemma_token_at_bounds(s, i);
        lemma_tokens_lines_from(s, e);
        lemma_newlines_split(s, 0, i, e);
        lemma_newlines_le(s, i, e);
        let ts = spec_tokens(s, i);
        let rest = spec_tokens(s, e);
        assert forall|a: int| 0 <= a < ts.len() implies (#[trigger] ts[a]).line >= spec_line_of(
            s,
            i,
        ) by {
            if a > 0 {
                assert(ts[a] == rest[a - 1]);
            }
        }
        assert forall|a: int, b: int| 0 <= a <= b < ts.len() implies ts[a].line
            <= ts[b].line by {
            if a > 0 {
                assert(ts[a] == rest[a - 1]);
                assert(ts[b] == rest[b - 1]);
            } else if b > 0 {
                assert(ts[b] == rest[b - 1]);
            }
        }
    }
}

/// Law: token starting-line numbers are non-decreasing across the whole
/// token stream of any input.
pub proof fn lemma_token_lines_nondecreasing(s: Seq<char>, a: int, b: int)
    requires
        0 <= a <= b < spec_tokens(s, 0).len(),
    ensures
        spec_tokens(s, 0)[a].line <= spec_tokens(s, 0)[b].line,
{
    lemma_tokens_lines_from(s, 0);
}

} // verus!
