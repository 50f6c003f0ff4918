//! Splitting a command template into literal text and substitution points.

use crate::text::push_char;
use vstd::prelude::*;
use vstd::string::*;

verus! {

/// One piece of a command template.
#[derive(Debug, PartialEq, Eq)]
pub enum Token {
    /// Text copied into the command as it stands.
    Literal(String),
    /// The place where the job's input line goes.
    Substitute,
}

/// A token as a mathematical value.
pub enum TokenView {
    Literal(Seq<char>),
    Substitute,
}

impl View for Token {
    type V = TokenView;

    open spec fn view(&self) -> TokenView {
        match self {
            Token::Literal(s) => TokenView::Literal(s@),
            Token::Substitute => TokenView::Substitute,
        }
    }
}

/// The tokens of a vector, as values.
pub open spec fn tokens_view(v: Seq<Token>) -> Seq<TokenView> {
    v.map_values(|t: Token| t@)
}

/// The character at `i`, or `'\0'` past the end: a NUL character ends the
/// template as the end of the text does.
pub open spec fn char_at(s: Seq<char>, i: int) -> char {
    if 0 <= i < s.len() {
        s[i]
    } else {
        '\0'
    }
}

/// The first index from `i` on that holds `{`, NUL, or is the end.
pub open spec fn literal_end(s: Seq<char>, i: int) -> int
    decreases s.len() - i,
{
    if i >= s.len() || s[i] == '{' || s[i] == '\0' {
        i
    } else {
        literal_end(s, i + 1)
    }
}

/// The first index from `i` on that holds `}`, NUL, or is the end.
pub open spec fn brackets_end(s: Seq<char>, i: int) -> int
    decreases s.len() - i,
{
    if i >= s.len() || s[i] == '}' || s[i] == '\0' {
        i
    } else {
        brackets_end(s, i + 1)
    }
}

pub proof fn lemma_literal_end_bounds(s: Seq<char>, i: int)
    requires
        i <= s.len(),
    ensures
        i <= literal_end(s, i) <= s.len(),
    decreases s.len() - i,
{
    if i < s.len() && s[i] != '{' && s[i] != '\0' {
        lemma_literal_end_bounds(s, i + 1);
    }
}

pub proof fn lemma_brackets_end_bounds(s: Seq<char>, i: int)
    requires
        i <= s.len(),
    ensures
        i <= brackets_end(s, i) <= s.len(),
    decreases s.len() - i,
{
    if i < s.len() && s[i] != '}' && s[i] != '\0' {
        lemma_brackets_end_bounds(s, i + 1);
    }
}

/// The tokens of `s` from index `i` on: a `{` up to the next `}` is a
/// substitution point (an unclosed one is literal text), and any other run
/// of characters up to the next `{` is literal text.
pub open spec fn lex(s: Seq<char>, i: int) -> Seq<TokenView>
    decreases s.len() - i,
{
    if i < 0 || i >= s.len() || s[i] == '\0' {
        Seq::empty()
    } else if s[i] == '{' {
        let j = brackets_end(s, i + 1);
        proof {
            lemma_brackets_end_bounds(s, i + 1);
        }
        if j < s.len() && s[j] == '}' {
            seq![TokenView::Substitute] + lex(s, j + 1)
        } else {
            seq![TokenView::Literal(s.subrange(i, j))] + lex(s, j)
        }
    } else {
        let j = literal_end(s, i + 1);
        proof {
            lemma_literal_end_bounds(s, i + 1);
        }
        seq![TokenView::Literal(s.subrange(i, j))] + lex(s, j)
    }
}

/// One step of quoting: a literal that follows an opened quote is prefixed
/// with `'`; a substitution point after the first two tokens closes the
/// token at index `idx - 1` of the output with `'` (when that is literal
/// text not already ending so) and opens the quote, instead of being kept.
pub open spec fn quote_step(out: Seq<TokenView>, open: bool, idx: int, t: TokenView) -> (Seq<
    TokenView,
>, bool) {
    match t {
        TokenView::Literal(l) => (
            out.push(TokenView::Literal(if open { seq!['\''] + l } else { l })),
            open,
        ),
        TokenView::Substitute => if idx > 1 {
            if 0 <= idx - 1 < out.len() && out[idx - 1] is Literal {
                let l = out[idx - 1]->Literal_0;
                if l.len() > 0 && l.last() == '\'' {
                    (out, open)
                } else {
                    (out.update(idx - 1, TokenView::Literal(l.push('\''))), true)
                }
            } else {
                (out, open)
            }
        } else {
            (out.push(TokenView::Substitute), open)
        },
    }
}

/// Quoting applied to a whole token sequence: the output, and whether a
/// quote is open at its end.
pub open spec fn quote_pass(toks: Seq<TokenView>) -> (Seq<TokenView>, bool)
    decreases toks.len(),
{
    if toks.len() == 0 {
        (Seq::empty(), false)
    } else {
        let (out, open) = quote_pass(toks.drop_last());
        quote_step(out, open, toks.len() - 1, toks.last())
    }
}

/// The tokens of a template, with quoting applied when asked.
pub open spec fn template_tokens(s: Seq<char>, quotes: bool) -> Seq<TokenView> {
    if quotes {
        quote_pass(lex(s, 0)).0
    } else {
        lex(s, 0)
    }
}

/// Every literal of `toks` holds some text.
pub open spec fn literals_nonempty(toks: Seq<TokenView>) -> bool {
    forall|k: int| 0 <= k < toks.len() && #[trigger] toks[k] is Literal ==> toks[k]->Literal_0.len() > 0
}

impl Token {
    /// Splits a template into tokens; with `quotes`, the text around each
    /// substitution point is closed and reopened with single quotes.
    pub fn get_tokens(input: String, quotes: bool) -> (r: Vec<Token>)
        ensures
            tokens_view(r@) == template_tokens(input@, quotes),
    {
        let ghost s = input@;
        let mut lexer = Lexer::new(input);
        let mut out: Vec<Token> = Vec::new();
        if quotes {
            let ghost mut consumed: Seq<TokenView> = Seq::empty();
            let mut open_quote = false;
            let mut token_idx: usize = 0;
            loop
                invariant
                    lexer.wf(),
                    lexer.text() == s,
                    lex(s, 0) == consumed + lex(s, lexer.pos() as int),
                    quote_pass(consumed) == (tokens_view(out@), open_quote),
                    token_idx == consumed.len(),
                    token_idx <= lexer.pos(),
                    literals_nonempty(tokens_view(out@)),
                ensures
                    lex(s, 0) == consumed,
                    quote_pass(consumed) == (tokens_view(out@), open_quote),
                decreases s.len() - lexer.pos(),
            {
                let ghost before = lexer.pos();
                let ghost prev_out = tokens_view(out@);
                match lexer.next_token() {
                    None => {
                        assert(consumed + lex(s, before as int) =~= consumed);
                        break;
                    },
                    Some(token) => {
                        let ghost tv = token@;
                        proof {
                            assert(consumed.push(tv).drop_last() =~= consumed);
                            assert(consumed + lex(s, before as int) =~= consumed.push(tv) + lex(
                                s,
                                lexer.pos() as int,
                            ));
                        }
                        match token {
                            Token::Literal(l) => {
                                if open_quote {
                                    let mut q = String::new();
                                    push_char(&mut q, '\'');
                                    q.append(l.as_str());
                                    assert(q@ =~= seq!['\''] + l@);
                                    out.push(Token::Literal(q));
                                } else {
                                    out.push(Token::Literal(l));
                                }
                                assert(tokens_view(out@) =~= prev_out.push(
                                    tokens_view(out@).last(),
                                ));
                            },
                            Token::Substitute => {
                                if token_idx > 1 {
                                    if token_idx - 1 < out.len() {
                                        match &out[token_idx - 1] {
                                            Token::Literal(l) => {
                                                let n = l.as_str().unicode_len();
                                                assert(prev_out[token_idx - 1] is Literal);
                                                if l.as_str().get_char(n - 1) != '\'' {
                                                    let mut c = l.clone();
                                                    push_char(&mut c, '\'');
                                                    out.set(token_idx - 1, Token::Literal(c));
                                                    open_quote = true;
                                                    assert(tokens_view(out@) =~= prev_out.update(
                                                        token_idx - 1,
                                                        TokenView::Literal(l@.push('\'')),
                                                    ));
                                                }
                                            },
                                            Token::Substitute => {},
                                        }
                                    }
                                } else {
                                    out.push(Token::Substitute);
                                    assert(tokens_view(out@) =~= prev_out.push(TokenView::Substitute));
                                }
                            },
                        }
                        proof {
                            consumed = consumed.push(tv);
                        }
                        token_idx += 1;
                    },
                }
            }
        } else {
            let ghost mut consumed: Seq<TokenView> = Seq::empty();
            loop
                invariant
                    lexer.wf(),
                    lexer.text() == s,
                    lex(s, 0) == consumed + lex(s, lexer.pos() as int),
                    tokens_view(out@) == consumed,
                ensures
                    lex(s, 0) == tokens_view(out@),
                decreases s.len() - lexer.pos(),
            {
                let ghost before = lexer.pos();
                match lexer.next_token() {
                    None => {
                        assert(consumed + lex(s, before as int) =~= consumed);
                        break;
                    },
                    Some(token) => {
                        proof {
                            assert(consumed + lex(s, before as int) =~= consumed.push(token@) + lex(
                                s,
                                lexer.pos() as int,
                            ));
                            consumed = consumed.push(token@);
                        }
                        out.push(token);
                        assert(tokens_view(out@) =~= consumed);
                    },
                }
            }
        }
        out
    }
}

/// Reads a template one character at a time.
pub struct Lexer {
    input: String,
    len: usize,
    position: usize,
    ch: char,
}

impl Lexer {
    pub closed spec fn text(&self) -> Seq<char> {
        self.input@
    }

    /// Index of the current character.
    pub closed spec fn pos(&self) -> nat {
        self.position as nat
    }

    pub closed spec fn wf(&self) -> bool {
        &&& self.len == self.input@.len()
        &&& self.position <= self.len
        &&& self.ch == char_at(self.input@, self.position as int)
    }

    fn new(input: String) -> (r: Lexer)
        ensures
            r.wf(),
            r.text() == input@,
            r.pos() == 0,
    {
        let len = input.as_str().unicode_len();
        let ch = if len > 0 {
            input.as_str().get_char(0)
        } else {
            '\0'
        };
        Lexer { input, len, position: 0, ch }
    }

    /// Moves to the next character.
    fn read_char(&mut self)
        requires
            old(self).wf(),
            old(self).position < old(self).len,
        ensures
            final(self).wf(),
            final(self).input == old(self).input,
            final(self).position == old(self).position + 1,
    {
        self.position = self.position + 1;
        if self.position >= self.len {
            self.ch = '\0';
        } else {
            self.ch = self.input.as_str().get_char(self.position);
        }
    }

    /// The next token, or `None` at the end of the template.
    fn next_token(&mut self) -> (r: Option<Token>)
        requires
            old(self).wf(),
        ensures
            final(self).wf(),
            final(self).text() == old(self).text(),
            r is None ==> lex(old(self).text(), old(self).pos() as int) == Seq::<TokenView>::empty(),
            r is None ==> final(self).pos() == old(self).pos(),
            r is Some ==> lex(old(self).text(), old(self).pos() as int) == seq![r->0@] + lex(
                final(self).text(),
                final(self).pos() as int,
            ),
            r is Some ==> final(self).pos() > old(self).pos(),
            r matches Some(Token::Literal(l)) ==> l@.len() > 0,
    {
        proof {
            if self.position < self.len {
                lemma_brackets_end_bounds(self.input@, self.position + 1);
                lemma_literal_end_bounds(self.input@, self.position + 1);
            }
        }
        if self.ch == '{' {
            Some(self.read_brackets())
        } else if self.ch == '\0' {
            None
        } else {
            Some(Token::Literal(self.read_literal()))
        }
    }

    /// Reads literal text up to the next `{` or the end.
    fn read_literal(&mut self) -> (r: String)
        requires
            old(self).wf(),
            old(self).ch != '{',
            old(self).ch != '\0',
        ensures
            final(self).wf(),
            final(self).text() == old(self).text(),
            final(self).pos() == literal_end(old(self).text(), old(self).pos() + 1int),
            r@ == old(self).text().subrange(old(self).pos() as int, final(self).pos() as int),
    {
        let position = self.position;
        let ghost s = self.input@;
        proof {
            lemma_literal_end_bounds(s, position + 1);
        }
        self.read_char();
        loop
            invariant
                self.wf(),
                self.input@ == s,
                position < self.position,
                literal_end(s, position + 1) == literal_end(s, self.position as int),
            ensures
                self.wf(),
                self.input@ == s,
                self.position == literal_end(s, position + 1),
                position < self.position,
            decreases s.len() - self.position,
        {
            if self.ch == '{' || self.ch == '\0' {
                break;
            }
            self.read_char();
        }
        self.input.as_str().substring_char(position, self.position).to_owned()
    }

    /// Reads from a `{` to the matching `}`: a substitution point, or
    /// literal text when no `}` follows.
    fn read_brackets(&mut self) -> (r: Token)
        requires
            old(self).wf(),
            old(self).ch == '{',
        ensures
            final(self).wf(),
            final(self).text() == old(self).text(),
            ({
                let s = old(self).text();
                let i = old(self).pos() as int;
                let j = brackets_end(s, i + 1);
                if j < s.len() && s[j] == '}' {
                    r is Substitute && final(self).pos() == j + 1
                } else {
                    r is Literal && r->Literal_0@ == s.subrange(i, j) && final(self).pos() == j
                }
            }),
    {
        let position = self.position;
        let ghost s = self.input@;
        proof {
            lemma_brackets_end_bounds(s, position + 1);
        }
        self.read_char();
        loop
            invariant
                self.wf(),
                self.input@ == s,
                position < self.position,
                brackets_end(s, position + 1) == brackets_end(s, self.position as int),
            ensures
                self.wf(),
                self.input@ == s,
                self.position == brackets_end(s, position + 1),
                self.ch == '}' || self.ch == '\0',
            decreases s.len() - self.position,
        {
            if self.ch == '}' || self.ch == '\0' {
                break;
            }
            self.read_char();
        }
        if self.ch == '}' {
            self.read_char();
            Token::Substitute
        } else {
            Token::Literal(self.input.as_str().substring_char(position, self.position).to_owned())
        }
    }
}

} // verus!
