//! Shell-grammar-aware lexer, parameterized by dialect. It splits command
//! text into classified tokens — words, operators, quoted spans, and
//! substitution boundaries — while tracking quoting and substitution state so
//! that metacharacters inside a quoted region are never classified as
//! top-level operators. Malformed input (an unterminated quote or
//! substitution) never stops the scan: it is reported in-band, as an explicit
//! token and a flag, and the rest of the input is still tokenized.

use vstd::prelude::*;

verus! {

use vstd::string::StrSliceExecFns;

/// Shell dialect: decides the escape character. POSIX shells escape with a
/// backslash and use backticks for command substitution; PowerShell escapes
/// with a backtick.
#[derive(Debug, Clone, Copy, PartialEq, Eq, Structural)]
pub enum ShellType {
    Posix,
    PowerShell,
}

/// Classification of one token.
#[derive(Debug, Clone, Copy, PartialEq, Eq, Structural)]
pub enum TokenKind {
    /// Literal text.
    Word,
    /// A top-level metacharacter: pipe, redirection, connector, parenthesis.
    Operator,
    /// A complete single-quoted span, quotes included.
    SingleQuoted,
    /// A complete double-quoted span, quotes included.
    DoubleQuoted,
    /// A substitution opener: `$(`, or an opening backtick under POSIX.
    SubstOpen,
    /// A substitution closer: the matching `)` or closing backtick.
    SubstClose,
    /// A quote opened here and never closed; spans to the end of input.
    UnterminatedQuote,
}

/// One token: its kind and its span as character indices, `start` inclusive,
/// `end` exclusive.
#[derive(Debug, Clone, Copy, PartialEq, Eq, Structural)]
pub struct Token {
    pub kind: TokenKind,
    pub start: usize,
    pub end: usize,
}

/// The lexer's result: the tokens in input order, plus flags for anomalies
/// found while scanning (kept separate so downstream analysis still runs on
/// the best-effort token list).
#[derive(Debug, Clone)]
pub struct Tokenization {
    pub tokens: Vec<Token>,
    pub unterminated_quote: bool,
    pub unterminated_subst: bool,
    /// The deepest `$(` substitution nesting seen anywhere in the input.
    pub max_depth: usize,
}

/// The lexer's mode: outside any quote, inside single quotes, or inside
/// double quotes.
#[derive(Debug, Clone, Copy, PartialEq, Eq, Structural)]
pub enum LexMode {
    Norm,
    Single,
    Double,
}

/// The full lexer state between characters.
pub struct LexConfig {
    pub mode: LexMode,
    /// Start of the word currently being read, if any.
    pub ws: Option<int>,
    /// Start of the quote currently open (meaningful outside `Norm`).
    pub qs: int,
    /// Number of `$(` substitutions currently open.
    pub depth: int,
    /// Whether a POSIX backtick substitution is currently open.
    pub bt: bool,
    /// The deepest `$(` nesting seen so far.
    pub maxd: int,
}

/// What the lexer returns.
pub struct LexOut {
    pub tokens: Seq<Token>,
    pub unterminated_quote: bool,
    pub unterminated_subst: bool,
    pub max_depth: int,
}

/// The dialect's escape character.
pub open spec fn esc_char(sh: ShellType) -> char {
    match sh {
        ShellType::Posix => '\\',
        ShellType::PowerShell => '`',
    }
}

/// Characters that act as top-level operators outside quotes.
pub open spec fn is_op_char(c: char) -> bool {
    c == '|' || c == '&' || c == ';' || c == '<' || c == '>' || c == '(' || c == ')'
}

/// Token-separating whitespace.
pub open spec fn is_space_char(c: char) -> bool {
    c == ' ' || c == '\t' || c == '\n' || c == '\r'
}

/// Close the word currently being read, if it is non-empty, as a `Word`
/// token ending at `i`.
pub open spec fn flush_word(acc: Seq<Token>, ws: Option<int>, i: int) -> Seq<Token> {
    match ws {
        Some(w) => if w < i {
            acc.push(Token { kind: TokenKind::Word, start: w as usize, end: i as usize })
        } else {
            acc
        },
        None => acc,
    }
}

/// The word-start marker after reading one more word character at `i`.
pub open spec fn started(ws: Option<int>, i: int) -> Option<int> {
    match ws {
        Some(w) => Some(w),
        None => Some(i),
    }
}

/// One step of the lexer from position `i` in state `cfg` with the tokens
/// seen so far in `acc`; the whole remaining run of the machine.
pub open spec fn lex_from(s: Seq<char>, sh: ShellType, i: int, cfg: LexConfig, acc: Seq<Token>) -> LexOut
    decreases s.len() - i,
{
    if i < 0 || i >= s.len() {
        let end: int = s.len() as int;
        let acc2 = match cfg.mode {
            LexMode::Norm => flush_word(acc, cfg.ws, end),
            _ => acc.push(
                Token {
                    kind: TokenKind::UnterminatedQuote,
                    start: cfg.qs as usize,
                    end: end as usize,
                },
            ),
        };
        LexOut {
            tokens: acc2,
            unterminated_quote: !(cfg.mode is Norm),
            unterminated_subst: cfg.depth > 0 || cfg.bt,
            max_depth: cfg.maxd,
        }
    } else {
        let c = s[i];
        match cfg.mode {
            LexMode::Norm => {
                if c == esc_char(sh) && i + 1 < s.len() {
                    lex_from(
                        s,
                        sh,
                        i + 2,
                        LexConfig { ws: started(cfg.ws, i), ..cfg },
                        acc,
                    )
                } else if c == '\'' {
                    lex_from(
                        s,
                        sh,
                        i + 1,
                        LexConfig { mode: LexMode::Single, ws: None, qs: i, ..cfg },
                        flush_word(acc, cfg.ws, i),
                    )
                } else if c == '"' {
                    lex_from(
                        s,
                        sh,
                        i + 1,
                        LexConfig { mode: LexMode::Double, ws: None, qs: i, ..cfg },
                        flush_word(acc, cfg.ws, i),
                    )
                } else if c == '$' && i + 1 < s.len() && s[i + 1] == '(' {
                    lex_from(
                        s,
                        sh,
                        i + 2,
                        LexConfig {
                            ws: None,
                            depth: cfg.depth + 1,
                            maxd: if cfg.depth + 1 > cfg.maxd {
                                cfg.depth + 1
                            } else {
                                cfg.maxd
                            },
                            ..cfg
                        },
                        flush_word(acc, cfg.ws, i).push(
                            Token {
                                kind: TokenKind::SubstOpen,
                                start: i as usize,
                                end: (i + 2) as usize,
                            },
                        ),
                    )
                } else if sh is Posix && c == '`' {
                    lex_from(
                        s,
                        sh,
                        i + 1,
                        LexConfig { ws: None, bt: !cfg.bt, ..cfg },
                        flush_word(acc, cfg.ws, i).push(
                            Token {
                                kind: if cfg.bt {
                                    TokenKind::SubstClose
                                } else {
                                    TokenKind::SubstOpen
                                },
                                start: i as usize,
                                end: (i + 1) as usize,
                            },
                        ),
                    )
                } else if c == ')' && cfg.depth > 0 {
                    lex_from(
                        s,
                        sh,
                        i + 1,
                        LexConfig { ws: None, depth: cfg.depth - 1, ..cfg },
                        flush_word(acc, cfg.ws, i).push(
                            Token {
                                kind: TokenKind::SubstClose,
                                start: i as usize,
                                end: (i + 1) as usize,
                            },
                        ),
                    )
                } else if is_op_char(c) {
                    lex_from(
                        s,
                        sh,
                        i + 1,
                        LexConfig { ws: None, ..cfg },
                        flush_word(acc, cfg.ws, i).push(
                            Token {
                                kind: TokenKind::Operator,
                                start: i as usize,
                                end: (i + 1) as usize,
                            },
                        ),
                    )
                } else if is_space_char(c) {
                    lex_from(s, sh, i + 1, LexConfig { ws: None, ..cfg }, flush_word(acc, cfg.ws, i))
                } else {
                    lex_from(s, sh, i + 1, LexConfig { ws: started(cfg.ws, i), ..cfg }, acc)
                }
            },
            LexMode::Single => {
                if c == '\'' {
                    lex_from(
                        s,
                        sh,
                        i + 1,
                        LexConfig { mode: LexMode::Norm, ws: None, ..cfg },
                        acc.push(
                            Token {
                                kind: TokenKind::SingleQuoted,
                                start: cfg.qs as usize,
                                end: (i + 1) as usize,
                            },
                        ),
                    )
                } else {
                    lex_from(s, sh, i + 1, cfg, acc)
                }
            },
            LexMode::Double => {
                if c == esc_char(sh) && i + 1 < s.len() {
                    lex_from(s, sh, i + 2, cfg, acc)
                } else if c == '"' {
                    lex_from(
                        s,
                        sh,
                        i + 1,
                        LexConfig { mode: LexMode::Norm, ws: None, ..cfg },
                        acc.push(
                            Token {
                                kind: TokenKind::DoubleQuoted,
                                start: cfg.qs as usize,
                                end: (i + 1) as usize,
                            },
                        ),
                    )
                } else {
                    lex_from(s, sh, i + 1, cfg, acc)
                }
            },
        }
    }
}

/// Tokens that lie inside an input of `n` characters, in input order and
/// without overlap.
pub open spec fn tokens_wf(ts: Seq<Token>, n: int) -> bool {
    &&& forall|k: int| 0 <= k < ts.len() ==> (#[trigger] ts[k]).start < ts[k].end <= n
    &&& forall|k1: int, k2: int|
        0 <= k1 < k2 < ts.len() ==> (#[trigger] ts[k1]).end <= (#[trigger] ts[k2]).start
}

/// The frontier before which every token of the accumulator ends: the open
/// word's start, the open quote's start, or the scan position itself.
pub open spec fn lex_frontier(cfg: LexConfig, i: int) -> int {
    if !(cfg.mode is Norm) {
        cfg.qs
    } else {
        match cfg.ws {
            Some(w) => w,
            None => i,
        }
    }
}

/// A reachable lexer state: the scan position is inside the input, open word
/// and quote starts lie before it, and the tokens seen so far are in order
/// before the frontier.
pub open spec fn lex_inv(cfg: LexConfig, i: int, n: int, acc: Seq<Token>) -> bool {
    &&& 0 <= i <= n <= usize::MAX
    &&& (cfg.ws matches Some(w) ==> 0 <= w < i)
    &&& (!(cfg.mode is Norm) ==> 0 <= cfg.qs < i)
    &&& tokens_wf(acc, n)
    &&& forall|k: int| 0 <= k < acc.len() ==> (#[trigger] acc[k]).end <= lex_frontier(cfg, i)
    &&& lex_frontier(cfg, i) <= i
}

/// Law: from any reachable state — in particular from the start — the lexer
/// emits tokens that lie inside the input, in input order, without overlap.
pub proof fn lemma_lex_tokens_wf(s: Seq<char>, sh: ShellType, i: int, cfg: LexConfig, acc: Seq<Token>)
    requires
        lex_inv(cfg, i, s.len() as int, acc),
    ensures
        tokens_wf(lex_from(s, sh, i, cfg, acc).tokens, s.len() as int),
    decreases s.len() - i,
{
    let n = s.len() as int;
    if i >= n {
    } else {
        let c = s[i];
        match cfg.mode {
            LexMode::Norm => {
                let facc = flush_word(acc, cfg.ws, i);
                assert(tokens_wf(facc, n));
                assert(forall|k: int| 0 <= k < facc.len() ==> (#[trigger] facc[k]).end <= i);
                if c == esc_char(sh) && i + 1 < n {
                    lemma_lex_tokens_wf(s, sh, i + 2, LexConfig { ws: started(cfg.ws, i), ..cfg }, acc);
                } else if c == '\'' {
                    lemma_lex_tokens_wf(
                        s,
                        sh,
                        i + 1,
                        LexConfig { mode: LexMode::Single, ws: None, qs: i, ..cfg },
                        flush_word(acc, cfg.ws, i),
                    );
                } else if c == '"' {
                    lemma_lex_tokens_wf(
                        s,
                        sh,
                        i + 1,
                        LexConfig { mode: LexMode::Double, ws: None, qs: i, ..cfg },
                        flush_word(acc, cfg.ws, i),
                    );
                } else if c == '$' && i + 1 < n && s[i + 1] == '(' {
                    lemma_lex_tokens_wf(
                        s,
                        sh,
                        i + 2,
                        LexConfig {
                            ws: None,
                            depth: cfg.depth + 1,
                            maxd: if cfg.depth + 1 > cfg.maxd {
                                cfg.depth + 1
                            } else {
                                cfg.maxd
                            },
                            ..cfg
                        },
                        flush_word(acc, cfg.ws, i).push(
                            Token {
                                kind: TokenKind::SubstOpen,
                                start: i as usize,
                                end: (i + 2) as usize,
                            },
                        ),
                    );
                } else if sh is Posix && c == '`' {
                    lemma_lex_tokens_wf(
                        s,
                        sh,
                        i + 1,
                        LexConfig { ws: None, bt: !cfg.bt, ..cfg },
                        flush_word(acc, cfg.ws, i).push(
                            Token {
                                kind: if cfg.bt {
                                    TokenKind::SubstClose
                                } else {
                                    TokenKind::SubstOpen
                                },
                                start: i as usize,
                                end: (i + 1) as usize,
                            },
                        ),
                    );
                } else if c == ')' && cfg.depth > 0 {
                    lemma_lex_tokens_wf(
                        s,
                        sh,
                        i + 1,
                        LexConfig { ws: None, depth: cfg.depth - 1, ..cfg },
                        flush_word(acc, cfg.ws, i).push(
                            Token {
                                kind: TokenKind::SubstClose,
                                start: i as usize,
                                end: (i + 1) as usize,
                            },
                        ),
                    );
                } else if is_op_char(c) {
                    lemma_lex_tokens_wf(
                        s,
                        sh,
                        i + 1,
                        LexConfig { ws: None, ..cfg },
                        flush_word(acc, cfg.ws, i).push(
                            Token {
                                kind: TokenKind::Operator,
                                start: i as usize,
                                end: (i + 1) as usize,
                            },
                        ),
                    );
                } else if is_space_char(c) {
                    lemma_lex_tokens_wf(
                        s,
                        sh,
                        i + 1,
                        LexConfig { ws: None, ..cfg },
                        flush_word(acc, cfg.ws, i),
                    );
                } else {
                    lemma_lex_tokens_wf(s, sh, i + 1, LexConfig { ws: started(cfg.ws, i), ..cfg }, acc);
                }
            },
            LexMode::Single => {
                if c == '\'' {
                    lemma_lex_tokens_wf(
                        s,
                        sh,
                        i + 1,
                        LexConfig { mode: LexMode::Norm, ws: None, ..cfg },
                        acc.push(
                            Token {
                                kind: TokenKind::SingleQuoted,
                                start: cfg.qs as usize,
                                end: (i + 1) as usize,
                            },
                        ),
                    );
                } else {
                    lemma_lex_tokens_wf(s, sh, i + 1, cfg, acc);
                }
            },
            LexMode::Double => {
                if c == esc_char(sh) && i + 1 < n {
                    lemma_lex_tokens_wf(s, sh, i + 2, cfg, acc);
                } else if c == '"' {
                    lemma_lex_tokens_wf(
                        s,
                        sh,
                        i + 1,
                        LexConfig { mode: LexMode::Norm, ws: None, ..cfg },
                        acc.push(
                            Token {
                                kind: TokenKind::DoubleQuoted,
                                start: cfg.qs as usize,
                                end: (i + 1) as usize,
                            },
                        ),
                    );
                } else {
                    lemma_lex_tokens_wf(s, sh, i + 1, cfg, acc);
                }
            },
        }
    }
}

/// Law: the tokens of any input lie inside it, in input order, without
/// overlap.
pub proof fn lemma_tokenize_wf(s: Seq<char>, sh: ShellType)
    requires
        s.len() <= usize::MAX,
    ensures
        tokens_wf(spec_tokenize(s, sh).tokens, s.len() as int),
{
    lemma_lex_tokens_wf(s, sh, 0, init_config(), Seq::empty());
}

/// The lexer's starting state.
pub open spec fn init_config() -> LexConfig {
    LexConfig { mode: LexMode::Norm, ws: None, qs: 0, depth: 0, bt: false, maxd: 0 }
}

/// The tokens and anomaly flags of a whole input under the given dialect.
pub open spec fn spec_tokenize(s: Seq<char>, sh: ShellType) -> LexOut {
    lex_from(s, sh, 0, init_config(), Seq::empty())
}

/// What `tokenize` promises: exactly the tokens and flags of the spec-level
/// lexer run.
pub open spec fn tokenization_matches(s: Seq<char>, sh: ShellType, r: Tokenization) -> bool {
    &&& r.tokens@ == spec_tokenize(s, sh).tokens
    &&& r.unterminated_quote == spec_tokenize(s, sh).unterminated_quote
    &&& r.unterminated_subst == spec_tokenize(s, sh).unterminated_subst
    &&& r.max_depth as int == spec_tokenize(s, sh).max_depth
}

/// Split command text into classified tokens under the given dialect. Total
/// over any input: unterminated quotes or substitutions are reported in-band
/// and never stop the scan.
pub fn tokenize(text: &str, shell: ShellType) -> (r: Tokenization)
    ensures
        tokenization_matches(text@, shell, r),
{
    let n = text.unicode_len();
    let ghost goal = spec_tokenize(text@, shell);
    let mut tokens: Vec<Token> = Vec::new();
    let mut mode = LexMode::Norm;
    let mut word_started = false;
    let mut ws_val: usize = 0;
    let mut qs: usize = 0;
    let mut depth: usize = 0;
    let mut maxd: usize = 0;
    let mut bt = false;
    let mut i: usize = 0;
    while i < n
        invariant
            n == text@.len(),
            i <= n,
            lex_from(
                text@,
                shell,
                i as int,
                LexConfig {
                    mode: mode,
                    ws: if word_started {
                        Some(ws_val as int)
                    } else {
                        None
                    },
                    qs: qs as int,
                    depth: depth as int,
                    bt: bt,
                    maxd: maxd as int,
                },
                tokens@,
            ) == goal,
            depth <= i,
        decreases n - i,
    {
        let c = text.get_char(i);
        match mode {
            LexMode::Norm => {
                let esc = if matches!(shell, ShellType::Posix) {
                    '\\'
                } else {
                    '`'
                };
                let next_paren = i + 1 < n && text.get_char(i + 1) == '(';
                if c == esc && i + 1 < n {
                    if !word_started {
                        word_started = true;
                        ws_val = i;
                    }
                    i += 2;
                } else if c == '\'' {
                    if word_started && ws_val < i {
                        tokens.push(Token { kind: TokenKind::Word, start: ws_val, end: i });
                    }
                    word_started = false;
                    mode = LexMode::Single;
                    qs = i;
                    i += 1;
                } else if c == '"' {
                    if word_started && ws_val < i {
                        tokens.push(Token { kind: TokenKind::Word, start: ws_val, end: i });
                    }
                    word_started = false;
                    mode = LexMode::Double;
                    qs = i;
                    i += 1;
                } else if c == '$' && next_paren {
                    if word_started && ws_val < i {
                        tokens.push(Token { kind: TokenKind::Word, start: ws_val, end: i });
                    }
                    word_started = false;
                    tokens.push(Token { kind: TokenKind::SubstOpen, start: i, end: i + 2 });
                    depth += 1;
                    if depth > maxd {
                        maxd = depth;
                    }
                    i += 2;
                } else if matches!(shell, ShellType::Posix) && c == '`' {
                    if word_started && ws_val < i {
                        tokens.push(Token { kind: TokenKind::Word, start: ws_val, end: i });
                    }
                    word_started = false;
                    let kind = if bt {
                        TokenKind::SubstClose
                    } else {
                        TokenKind::SubstOpen
                    };
                    tokens.push(Token { kind, start: i, end: i + 1 });
                    bt = !bt;
                    i += 1;
                } else if c == ')' && depth > 0 {
                    if word_started && ws_val < i {
                        tokens.push(Token { kind: TokenKind::Word, start: ws_val, end: i });
                    }
                    word_started = false;
                    tokens.push(Token { kind: TokenKind::SubstClose, start: i, end: i + 1 });
                    depth -= 1;
                    i += 1;
                } else if c == '|' || c == '&' || c == ';' || c == '<' || c == '>' || c == '('
                    || c == ')' {
                    if word_started && ws_val < i {
                        tokens.push(Token { kind: TokenKind::Word, start: ws_val, end: i });
                    }
                    word_started = false;
                    tokens.push(Token { kind: TokenKind::Operator, start: i, end: i + 1 });
                    i += 1;
                } else if c == ' ' || c == '\t' || c == '\n' || c == '\r' {
                    if word_started && ws_val < i {
                        tokens.push(Token { kind: TokenKind::Word, start: ws_val, end: i });
                    }
                    word_started = false;
                    i += 1;
                } else {
                    if !word_started {
                        word_started = true;
                        ws_val = i;
                    }
                    i += 1;
                }
            },
            LexMode::Single => {
                if c == '\'' {
                    tokens.push(Token { kind: TokenKind::SingleQuoted, start: qs, end: i + 1 });
                    mode = LexMode::Norm;
                    word_started = false;
                    i += 1;
                } else {
                    i += 1;
                }
            },
            LexMode::Double => {
                let esc = if matches!(shell, ShellType::Posix) {
                    '\\'
                } else {
                    '`'
                };
                if c == esc && i + 1 < n {
                    i += 2;
                } else if c == '"' {
                    tokens.push(Token { kind: TokenKind::DoubleQuoted, start: qs, end: i + 1 });
                    mode = LexMode::Norm;
                    word_started = false;
                    i += 1;
                } else {
                    i += 1;
                }
            },
        }
    }
    let unterminated_quote = !matches!(mode, LexMode::Norm);
    if unterminated_quote {
        tokens.push(Token { kind: TokenKind::UnterminatedQuote, start: qs, end: n });
    } else if word_started && ws_val < n {
        tokens.push(Token { kind: TokenKind::Word, start: ws_val, end: n });
    }
    let unterminated_subst = depth > 0 || bt;
    Tokenization { tokens, unterminated_quote, unterminated_subst, max_depth: maxd }
}

} // verus!
