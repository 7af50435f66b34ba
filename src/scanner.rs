use vstd::prelude::*;
use crate::error::{Error, ErrorView};
use crate::keywords::{keyword_of, lookup_keyword};
use crate::token::{Token, TokenType, TokenView};

verus! {

/// A space or a newline: what ends a literal, identifier or keyword run.
pub open spec fn is_delimiter(c: char) -> bool {
    c == ' ' || c == '\n'
}

/// An ASCII letter, of either case.
pub open spec fn is_letter(c: char) -> bool {
    ('a' <= c && c <= 'z') || ('A' <= c && c <= 'Z')
}

/// Length of the leading part of `t` that holds no space or newline.
pub open spec fn run_len(t: Seq<char>) -> nat
    decreases t.len(),
{
    if t.len() == 0 || is_delimiter(t[0]) {
        0
    } else {
        1 + run_len(t.drop_first())
    }
}

/// Length of the leading part of `t` that holds no newline.
pub open spec fn line_len(t: Seq<char>) -> nat
    decreases t.len(),
{
    if t.len() == 0 || t[0] == '\n' {
        0
    } else {
        1 + line_len(t.drop_first())
    }
}

/// The message for a run of letters that is no keyword.
pub open spec fn unknown_keyword_message(text: Seq<char>) -> Seq<char> {
    "keyword doesn't exist: "@ + text
}

/// The message for a character that no rule accepts.
pub open spec fn unrecognized_character_message(c: char) -> Seq<char> {
    "unrecognized character: "@ + seq![c]
}

/// The outcome of classifying the character at the front of the unscanned text:
/// how many characters it consumes, the position after them, and the token kind
/// or error message it yields (both at the position before them).
pub struct Step {
    pub consumed: nat,
    pub line: nat,
    pub column: nat,
    pub token: Option<TokenType>,
    pub error: Option<Seq<char>>,
}

/// A step that consumes `n` characters of one line and yields a token.
pub open spec fn emit(kind: TokenType, n: nat, line: nat, column: nat) -> Step {
    Step { consumed: n, line, column: column + n, token: Some(kind), error: None }
}

/// A step that consumes `n` characters of one line and yields nothing.
pub open spec fn skip(n: nat, line: nat, column: nat) -> Step {
    Step { consumed: n, line, column: column + n, token: None, error: None }
}

/// A step that consumes `n` characters of one line and yields an error.
pub open spec fn fail(message: Seq<char>, n: nat, line: nat, column: nat) -> Step {
    Step { consumed: n, line, column: column + n, token: None, error: Some(message) }
}

/// The classification rules, applied to the first character of `rest`.
pub open spec fn step(rest: Seq<char>, line: nat, column: nat) -> Step
    recommends
        rest.len() > 0,
{
    let c = rest[0];
    if c == '+' {
        emit(TokenType::Plus, 1, line, column)
    } else if c == '-' {
        emit(TokenType::Minus, 1, line, column)
    } else if c == '*' {
        emit(TokenType::Star, 1, line, column)
    } else if c == '/' {
        if rest.len() > 1 && rest[1] == '/' {
            skip(line_len(rest), line, column)
        } else {
            emit(TokenType::Slash, 1, line, column)
        }
    } else if c == ' ' {
        skip(1, line, column)
    } else if c == '\n' {
        Step { consumed: 1, line: line + 1, column: 1, token: None, error: None }
    } else if c == '"' {
        emit(TokenType::Value, run_len(rest), line, column)
    } else if c == ':' {
        emit(TokenType::Identifier, run_len(rest), line, column)
    } else if is_letter(c) {
        let n = run_len(rest);
        match keyword_of(rest.take(n as int)) {
            Some(k) => emit(k, n, line, column),
            None => fail(unknown_keyword_message(rest.take(n as int)), n, line, column),
        }
    } else {
        fail(unrecognized_character_message(c), 1, line, column)
    }
}

/// A token of the model together with the source span `[start, end)` it was cut from.
pub struct SpannedToken {
    pub token: TokenView,
    pub start: int,
    pub end: int,
}

/// The token, with its span, that the step at the front of `rest` yields, if any.
pub open spec fn step_tokens(rest: Seq<char>, offset: int, line: nat, column: nat) -> Seq<
    SpannedToken,
> {
    let st = step(rest, line, column);
    match st.token {
        Some(k) => seq![
            SpannedToken {
                token: TokenView { kind: k, lexeme: rest.take(st.consumed as int), line, column },
                start: offset,
                end: offset + st.consumed,
            },
        ],
        None => seq![],
    }
}

/// The error that the step at the front of `rest` yields, if any.
pub open spec fn step_errors(rest: Seq<char>, line: nat, column: nat) -> Seq<ErrorView> {
    match step(rest, line, column).error {
        Some(m) => seq![ErrorView { message: m, line, column }],
        None => seq![],
    }
}

/// Scans `rest`, the source text from index `offset` on, starting at the given position.
pub open spec fn scan_from(rest: Seq<char>, offset: int, line: nat, column: nat) -> (Seq<
    SpannedToken,
>, Seq<ErrorView>)
    decreases rest.len(),
    via scan_from_decreases
{
    if rest.len() == 0 {
        (seq![], seq![])
    } else {
        let st = step(rest, line, column);
        let n = st.consumed;
        let tail = scan_from(rest.skip(n as int), offset + n, st.line, st.column);
        (step_tokens(rest, offset, line, column) + tail.0, step_errors(rest, line, column) + tail.1)
    }
}

#[via_fn]
proof fn scan_from_decreases(rest: Seq<char>, offset: int, line: nat, column: nat) {
    if rest.len() > 0 {
        lemma_step_progress(rest, line, column);
    }
}

/// The whole scan of a source text: its spanned tokens and its errors, in order.
pub open spec fn scan_model(s: Seq<char>) -> (Seq<SpannedToken>, Seq<ErrorView>) {
    scan_from(s, 0, 1, 1)
}

/// A line or column as a `u32` position records it: held at `u32::MAX` beyond that.
pub open spec fn cap(n: nat) -> nat {
    if n > u32::MAX {
        u32::MAX as nat
    } else {
        n
    }
}

/// A token with its line and column as recorded.
pub open spec fn capped_token(t: TokenView) -> TokenView {
    TokenView { kind: t.kind, lexeme: t.lexeme, line: cap(t.line), column: cap(t.column) }
}

/// An error with its line and column as recorded.
pub open spec fn capped_error(e: ErrorView) -> ErrorView {
    ErrorView { message: e.message, line: cap(e.line), column: cap(e.column) }
}

/// The tokens of a scan, without their spans, with their positions as recorded.
pub open spec fn model_tokens(s: Seq<char>) -> Seq<TokenView> {
    scan_model(s).0.map_values(|t: SpannedToken| capped_token(t.token))
}

/// The errors of a scan, with their positions as recorded.
pub open spec fn model_errors(s: Seq<char>) -> Seq<ErrorView> {
    scan_model(s).1.map_values(|e: ErrorView| capped_error(e))
}

pub proof fn lemma_run_len_bound(t: Seq<char>)
    ensures
        run_len(t) <= t.len(),
        t.len() > 0 && !is_delimiter(t[0]) ==> run_len(t) >= 1,
    decreases t.len(),
{
    if t.len() > 0 && !is_delimiter(t[0]) {
        lemma_run_len_bound(t.drop_first());
    }
}

pub proof fn lemma_line_len_bound(t: Seq<char>)
    ensures
        line_len(t) <= t.len(),
        t.len() > 0 && t[0] != '\n' ==> line_len(t) >= 1,
    decreases t.len(),
{
    if t.len() > 0 && t[0] != '\n' {
        lemma_line_len_bound(t.drop_first());
    }
}

/// Every step consumes at least one character and no more than are left.
pub proof fn lemma_step_progress(rest: Seq<char>, line: nat, column: nat)
    requires
        rest.len() > 0,
    ensures
        1 <= step(rest, line, column).consumed <= rest.len(),
{
    lemma_run_len_bound(rest);
    lemma_line_len_bound(rest);
}

/// A prefix of `m` non-delimiters, followed by a delimiter or the end, is the whole run.
pub proof fn lemma_run_len_exact(t: Seq<char>, m: nat)
    requires
        m <= t.len(),
        forall|k: int| 0 <= k < m ==> !is_delimiter(#[trigger] t[k]),
        m == t.len() || is_delimiter(t[m as int]),
    ensures
        run_len(t) == m,
    decreases m,
{
    if m > 0 {
        let u = t.drop_first();
        assert forall|k: int| 0 <= k < m - 1 implies !is_delimiter(#[trigger] u[k]) by {
            assert(u[k] == t[k + 1]);
        }
        lemma_run_len_exact(u, (m - 1) as nat);
    }
}

proof fn lemma_line_len_exact(t: Seq<char>, m: nat)
    requires
        m <= t.len(),
        forall|k: int| 0 <= k < m ==> #[trigger] t[k] != '\n',
        m == t.len() || t[m as int] == '\n',
    ensures
        line_len(t) == m,
    decreases m,
{
    if m > 0 {
        let u = t.drop_first();
        assert forall|k: int| 0 <= k < m - 1 implies #[trigger] u[k] != '\n' by {
            assert(u[k] == t[k + 1]);
        }
        lemma_line_len_exact(u, (m - 1) as nat);
    }
}

/// The index of the first space or newline at or after `from`, or the end of `chars`.
fn run_end(chars: &Vec<char>, from: usize) -> (j: usize)
    requires
        from <= chars.len(),
    ensures
        from <= j <= chars.len(),
        j - from == run_len(chars@.skip(from as int)),
{
    let mut j = from;
    while j < chars.len() && chars[j] != ' ' && chars[j] != '\n'
        invariant
            from <= j <= chars.len(),
            forall|k: int| from <= k < j ==> !is_delimiter(#[trigger] chars@[k]),
        decreases chars.len() - j,
    {
        j = j + 1;
    }
    proof {
        let t = chars@.skip(from as int);
        assert forall|k: int| 0 <= k < j - from implies !is_delimiter(#[trigger] t[k]) by {
            assert(t[k] == chars@[from + k]);
        }
        lemma_run_len_exact(t, (j - from) as nat);
    }
    j
}

/// The index of the first newline at or after `from`, or the end of `chars`.
fn line_end(chars: &Vec<char>, from: usize) -> (j: usize)
    requires
        from <= chars.len(),
    ensures
        from <= j <= chars.len(),
        j - from == line_len(chars@.skip(from as int)),
{
    let mut j = from;
    while j < chars.len() && chars[j] != '\n'
        invariant
            from <= j <= chars.len(),
            forall|k: int| from <= k < j ==> #[trigger] chars@[k] != '\n',
        decreases chars.len() - j,
    {
        j = j + 1;
    }
    proof {
        let t = chars@.skip(from as int);
        assert forall|k: int| 0 <= k < j - from implies #[trigger] t[k] != '\n' by {
            assert(t[k] == chars@[from + k]);
        }
        lemma_line_len_exact(t, (j - from) as nat);
    }
    j
}

/// `position + n`, held at `u32::MAX`.
fn advance(position: u32, n: usize) -> (r: u32)
    ensures
        r as nat == cap(position as nat + n as nat),
{
    if n >= (u32::MAX - position) as usize {
        u32::MAX
    } else {
        position + n as u32
    }
}

/// The characters of a text, in order.
fn chars_of(s: &str) -> (v: Vec<char>)
    ensures
        v@ == s@,
{
    let mut v: Vec<char> = Vec::new();
    for c in it: s.chars()
        invariant
            v@ == it.seq().take(it.index() as int),
    {
        v.push(c);
    }
    assert(v@ =~= s@);
    v
}

/// One left-to-right pass over a source text, collecting tokens and errors.
pub struct Scanner {
    source: String,
    tokens: Vec<Token>,
    errors: Vec<Error>,
    line: u32,
    column: u32,
    start: usize,
    current: usize,
}

impl Scanner {
    /// The source text being scanned.
    pub closed spec fn text(&self) -> Seq<char> {
        self.source@
    }

    /// The (line, column) that the next character to classify stands at.
    pub closed spec fn position(&self) -> (nat, nat) {
        (self.line as nat, self.column as nat)
    }

    /// The (start, current) character indices: where the lexeme being read begins,
    /// and the next character to classify.
    pub closed spec fn cursor(&self) -> (nat, nat) {
        (self.start as nat, self.current as nat)
    }

    /// The tokens collected so far.
    pub closed spec fn token_views(&self) -> Seq<TokenView> {
        self.tokens@.map_values(|t: Token| t@)
    }

    /// The errors collected so far.
    pub closed spec fn error_views(&self) -> Seq<ErrorView> {
        self.errors@.map_values(|e: Error| e@)
    }

    /// A scanner over `source` that has collected nothing yet.
    pub fn new(source: String) -> (r: Scanner)
        ensures
            r.text() == source@,
            r.position() == (1nat, 1nat),
            r.cursor() == (0nat, 0nat),
            r.token_views() == Seq::<TokenView>::empty(),
            r.error_views() == Seq::<ErrorView>::empty(),
    {
        let r = Scanner {
            source,
            tokens: Vec::new(),
            errors: Vec::new(),
            line: 1,
            column: 1,
            start: 0,
            current: 0,
        };
        assert(r.token_views() =~= Seq::<TokenView>::empty());
        assert(r.error_views() =~= Seq::<ErrorView>::empty());
        r
    }

    /// Whether `c` starts a keyword run.
    pub fn is_alphabet(c: char) -> (r: bool)
        ensures
            r == is_letter(c),
    {
        ('a' <= c && c <= 'z') || ('A' <= c && c <= 'Z')
    }

    /// The text between the start of the current lexeme and the cursor.
    fn substring(&self) -> (r: String)
        requires
            self.start <= self.current <= self.source@.len(),
        ensures
            r@ == self.source@.subrange(self.start as int, self.current as int),
    {
        String::from_str(self.source.as_str().substring_char(self.start, self.current))
    }

    /// Records a token at the current line and column.
    fn add_token(&mut self, token_type: TokenType, lexeme: String)
        ensures
            final(self).source == old(self).source,
            final(self).errors == old(self).errors,
            final(self).line == old(self).line,
            final(self).column == old(self).column,
            final(self).start == old(self).start,
            final(self).current == old(self).current,
            final(self).token_views() == old(self).token_views().push(
                TokenView {
                    kind: token_type,
                    lexeme: lexeme@,
                    line: old(self).line as nat,
                    column: old(self).column as nat,
                },
            ),
    {
        let token = Token::new(lexeme, token_type, self.line, self.column);
        self.tokens.push(token);
        assert(self.token_views() =~= old(self).token_views().push(token@));
    }

    /// Records the keyword that `lexeme` spells, or reports that it spells none.
    fn keyword_processing(&mut self, lexeme: String) -> (r: Result<(), Error>)
        ensures
            final(self).source == old(self).source,
            final(self).errors == old(self).errors,
            final(self).line == old(self).line,
            final(self).column == old(self).column,
            final(self).start == old(self).start,
            final(self).current == old(self).current,
            match r {
                Ok(_) => keyword_of(lexeme@) is Some && final(self).token_views()
                    == old(self).token_views().push(
                    TokenView {
                        kind: keyword_of(lexeme@)->0,
                        lexeme: lexeme@,
                        line: old(self).line as nat,
                        column: old(self).column as nat,
                    },
                ),
                Err(e) => keyword_of(lexeme@) is None && final(self).token_views()
                    == old(self).token_views() && e@ == (ErrorView {
                    message: unknown_keyword_message(lexeme@),
                    line: old(self).line as nat,
                    column: old(self).column as nat,
                }),
            },
    {
        match lookup_keyword(lexeme.as_str()) {
            Some(kind) => {
                self.add_token(kind, lexeme);
                Ok(())
            },
            None => {
                let mut message = String::from_str("keyword doesn't exist: ");
                message.append(lexeme.as_str());
                Err(Error::new(message, (self.line, self.column)))
            },
        }
    }

    /// Classifies the character at the cursor and consumes it, with the rest of its lexeme.
    /// `line` and `column` are the exact position, of which the scanner records
    /// `cap(line)` and `cap(column)`.
    fn process_character(&mut self, chars: &Vec<char>, line: Ghost<nat>, column: Ghost<nat>)
        requires
            chars@ == old(self).source@,
            old(self).current < chars.len(),
            old(self).line as nat == cap(line@),
            old(self).column as nat == cap(column@),
        ensures
            ({
                let rest = chars@.skip(old(self).current as int);
                let st = step(rest, line@, column@);
                &&& final(self).source == old(self).source
                &&& final(self).current == old(self).current + st.consumed
                &&& final(self).line as nat == cap(st.line)
                &&& final(self).column as nat == cap(st.column)
                &&& final(self).token_views() == old(self).token_views() + step_tokens(
                    rest,
                    old(self).current as int,
                    line@,
                    column@,
                ).map_values(|t: SpannedToken| capped_token(t.token))
                &&& final(self).error_views() == old(self).error_views() + step_errors(
                    rest,
                    line@,
                    column@,
                ).map_values(|e: ErrorView| capped_error(e))
            }),
    {
        let ghost rest = chars@.skip(self.current as int);
        let ghost line = line@;
        let ghost column = column@;
        let cur = self.current;
        let c = chars[cur];
        assert(rest[0] == c);
        proof {
            lemma_step_progress(rest, line, column);
        }
        self.start = cur;
        if c == '+' || c == '-' || c == '*' || (c == '/' && !(cur + 1 < chars.len() && chars[cur
            + 1] == '/')) {
            let kind = if c == '+' {
                TokenType::Plus
            } else if c == '-' {
                TokenType::Minus
            } else if c == '*' {
                TokenType::Star
            } else {
                TokenType::Slash
            };
            self.current = cur + 1;
            let lexeme = self.substring();
            assert(lexeme@ =~= rest.take(1));
            self.add_token(kind, lexeme);
            self.column = advance(self.column, 1);
        } else if c == '/' {
            assert(rest[1] == chars@[cur + 1]);
            let end = line_end(chars, cur);
            self.current = end;
            self.column = advance(self.column, end - cur);
        } else if c == ' ' {
            self.current = cur + 1;
            self.column = advance(self.column, 1);
        } else if c == '\n' {
            self.current = cur + 1;
            self.line = advance(self.line, 1);
            self.column = 1;
        } else if c == '"' || c == ':' || Scanner::is_alphabet(c) {
            let end = run_end(chars, cur);
            self.current = end;
            let lexeme = self.substring();
            assert(lexeme@ =~= rest.take((end - cur) as int));
            if c == '"' {
                self.add_token(TokenType::Value, lexeme);
            } else if c == ':' {
                self.add_token(TokenType::Identifier, lexeme);
            } else {
                match self.keyword_processing(lexeme) {
                    Ok(()) => {},
                    Err(e) => {
                        self.errors.push(e);
                    },
                }
            }
            self.column = advance(self.column, end - cur);
        } else {
            let mut message = String::from_str("unrecognized character: ");
            message.append(self.source.as_str().substring_char(cur, cur + 1));
            assert(message@ =~= unrecognized_character_message(c));
            self.errors.push(Error::new(message, (self.line, self.column)));
            self.current = cur + 1;
            self.column = advance(self.column, 1);
        }
        assert(self.token_views() =~= old(self).token_views() + step_tokens(
            rest,
            cur as int,
            line,
            column,
        ).map_values(|t: SpannedToken| capped_token(t.token)));
        assert(self.error_views() =~= old(self).error_views() + step_errors(
            rest,
            line,
            column,
        ).map_values(|e: ErrorView| capped_error(e)));
    }

    /// Scans the whole source text, replacing what an earlier scan collected.
    /// Lines and columns are recorded as `u32`; one beyond `u32::MAX` is recorded as
    /// `u32::MAX` (see `cap`).
    pub fn scan(&mut self)
        ensures
            final(self).text() == old(self).text(),
            final(self).token_views() == model_tokens(old(self).text()),
            final(self).error_views() == model_errors(old(self).text()),
            final(self).cursor().1 == old(self).text().len(),
    {
        let chars = chars_of(self.source.as_str());
        self.tokens = Vec::new();
        self.errors = Vec::new();
        self.line = 1;
        self.column = 1;
        self.start = 0;
        self.current = 0;
        let ghost s = chars@;
        let ghost mut line: nat = 1;
        let ghost mut column: nat = 1;
        let ghost mut done: Seq<SpannedToken> = seq![];
        let ghost mut reported: Seq<ErrorView> = seq![];
        assert(self.token_views() =~= done.map_values(|t: SpannedToken| capped_token(t.token)));
        assert(self.error_views() =~= reported.map_values(|e: ErrorView| capped_error(e)));
        assert(s.skip(0) =~= s);
        while self.current < chars.len()
            invariant
                s == chars@,
                s == self.source@,
                self.source@ == old(self).source@,
                self.current <= chars.len(),
                self.line as nat == cap(line),
                self.column as nat == cap(column),
                self.token_views() == done.map_values(|t: SpannedToken| capped_token(t.token)),
                self.error_views() == reported.map_values(|e: ErrorView| capped_error(e)),
                scan_model(s).0 == done + scan_from(
                    s.skip(self.current as int),
                    self.current as int,
                    line,
                    column,
                ).0,
                scan_model(s).1 == reported + scan_from(
                    s.skip(self.current as int),
                    self.current as int,
                    line,
                    column,
                ).1,
            decreases chars.len() - self.current,
        {
            let ghost cur = self.current as int;
            let ghost rest = s.skip(cur);
            self.process_character(&chars, Ghost(line), Ghost(column));
            proof {
                let st = step(rest, line, column);
                lemma_step_progress(rest, line, column);
                let produced = step_tokens(rest, cur, line, column);
                let failed = step_errors(rest, line, column);
                assert(rest.skip(st.consumed as int) =~= s.skip(self.current as int));
                let tail = scan_from(
                    s.skip(self.current as int),
                    self.current as int,
                    st.line,
                    st.column,
                );
                assert(scan_from(rest, cur, line, column) == (produced + tail.0, failed + tail.1));
                assert(done + (produced + tail.0) =~= (done + produced) + tail.0);
                assert(reported + (failed + tail.1) =~= (reported + failed) + tail.1);
                assert((done + produced).map_values(|t: SpannedToken| capped_token(t.token))
                    =~= done.map_values(|t: SpannedToken| capped_token(t.token))
                    + produced.map_values(|t: SpannedToken| capped_token(t.token)));
                assert((reported + failed).map_values(|e: ErrorView| capped_error(e))
                    =~= reported.map_values(|e: ErrorView| capped_error(e))
                    + failed.map_values(|e: ErrorView| capped_error(e)));
                done = done + produced;
                reported = reported + failed;
                line = st.line;
                column = st.column;
            }
        }
        assert(scan_model(s).0 =~= done);
        assert(scan_model(s).1 =~= reported);
    }

    /// The tokens collected, in source order.
    pub fn tokens(&self) -> (r: &Vec<Token>)
        ensures
            r@.map_values(|t: Token| t@) == self.token_views(),
    {
        &self.tokens
    }

    /// The errors collected, in source order.
    pub fn errors(&self) -> (r: &Vec<Error>)
        ensures
            r@.map_values(|e: Error| e@) == self.error_views(),
    {
        &self.errors
    }

    /// Whether the scan recorded any error; if so the tokens are not to be trusted.
    pub fn has_errors(&self) -> (r: bool)
        ensures
            r == (self.error_views().len() > 0),
    {
        self.errors.len() > 0
    }

    /// Hands over the tokens and errors collected.
    pub fn into_parts(self) -> (r: (Vec<Token>, Vec<Error>))
        ensures
            r.0@.map_values(|t: Token| t@) == self.token_views(),
            r.1@.map_values(|e: Error| e@) == self.error_views(),
    {
        (self.tokens, self.errors)
    }
}

/// Scans a source text: its tokens and its errors, both in source order, with
/// positions recorded as `Scanner::scan` records them.
pub fn scan(source: String) -> (r: (Vec<Token>, Vec<Error>))
    ensures
        r.0@.map_values(|t: Token| t@) == model_tokens(source@),
        r.1@.map_values(|e: Error| e@) == model_errors(source@),
{
    let mut scanner = Scanner::new(source);
    scanner.scan();
    scanner.into_parts()
}

} // verus!
