//! Turning the command-line words into a template, and a template and an
//! input line into the command that a shell runs.

use crate::text::push_char;
use crate::tokenize::{template_tokens, tokens_view, Token, TokenView};
use vstd::prelude::*;
use vstd::string::*;

verus! {

/// The strings of a vector, as character sequences.
pub open spec fn args_view(v: Seq<String>) -> Seq<Seq<char>> {
    v.map_values(|s: String| s@)
}

/// The words from index `k` on, separated by single spaces.
pub open spec fn joined_from(args: Seq<Seq<char>>, k: int) -> Seq<char>
    decreases args.len() - k,
{
    if k < 0 || k >= args.len() {
        Seq::empty()
    } else if k == args.len() - 1 {
        args[k]
    } else {
        args[k] + seq![' '] + joined_from(args, k + 1)
    }
}

/// All the words, separated by single spaces.
pub open spec fn joined(args: Seq<Seq<char>>) -> Seq<char> {
    joined_from(args, 0)
}

/// Walks the characters of the words of a command line, with one space
/// between two words.
pub struct CommandIterator<'a> {
    vec: &'a Vec<String>,
    ch: Option<char>,
    vec_idx: usize,
    read_idx: usize,
}

impl<'a> CommandIterator<'a> {
    pub closed spec fn words(&self) -> Seq<Seq<char>> {
        args_view(self.vec@)
    }

    /// The characters that are still to come.
    pub closed spec fn remaining(&self) -> Seq<char> {
        let args = args_view(self.vec@);
        if self.vec_idx >= args.len() {
            Seq::empty()
        } else {
            args[self.vec_idx as int].skip(self.read_idx as int) + if self.vec_idx + 1 < args.len() {
                seq![' '] + joined_from(args, self.vec_idx + 1)
            } else {
                Seq::empty()
            }
        }
    }

    pub closed spec fn wf(&self) -> bool {
        &&& self.vec_idx <= self.vec@.len()
        &&& self.vec_idx < self.vec@.len() ==> self.read_idx <= self.vec@[self.vec_idx as int]@.len()
        &&& self.vec_idx >= self.vec@.len() ==> self.ch is None
    }

    /// An iterator over the words of `vec`, joined by spaces.
    pub fn from_vec(vec: &'a Vec<String>) -> (r: Self)
        ensures
            r.wf(),
            r.words() == args_view(vec@),
            r.remaining() == joined(args_view(vec@)),
    {
        let r = CommandIterator { vec, ch: None, vec_idx: 0, read_idx: 0 };
        assert(args_view(vec@).len() > 0 ==> args_view(vec@)[0].skip(0) =~= args_view(vec@)[0]);
        r
    }

    /// Reads the character at the current place of the current word, or
    /// `None` at the end of the word, from where it starts over.
    fn read_char(&mut self)
        requires
            old(self).wf(),
        ensures
            final(self).vec == old(self).vec,
            final(self).vec_idx == old(self).vec_idx,
            old(self).vec_idx < old(self).vec@.len() ==> {
                let w = old(self).vec@[old(self).vec_idx as int]@;
                if old(self).read_idx < w.len() {
                    final(self).ch == Some(w[old(self).read_idx as int]) && final(self).read_idx
                        == old(self).read_idx + 1
                } else {
                    final(self).ch is None && final(self).read_idx == 0
                }
            },
            old(self).vec_idx >= old(self).vec@.len() ==> *final(self) == *old(self),
    {
        if self.vec_idx < self.vec.len() {
            let v = &self.vec[self.vec_idx];
            if self.read_idx < v.as_str().unicode_len() {
                self.ch = Some(v.as_str().get_char(self.read_idx));
                self.read_idx = self.read_idx + 1;
            } else {
                self.ch = None;
                self.read_idx = 0;
            }
        }
    }

    /// The next character of the joined words, or `None` once all have
    /// been given.
    pub fn next(&mut self) -> (r: Option<char>)
        requires
            old(self).wf(),
        ensures
            final(self).wf(),
            final(self).words() == old(self).words(),
            r == if old(self).remaining().len() == 0 {
                None
            } else {
                Some(old(self).remaining()[0])
            },
            r is Some ==> final(self).remaining() == old(self).remaining().drop_first(),
    {
        let ghost args = args_view(self.vec@);
        proof {
            if self.vec_idx < args.len() {
                assert(args[self.vec_idx as int] == self.vec@[self.vec_idx as int]@);
            }
        }
        if self.vec.len() == 1 {
            self.read_char();
            proof {
                if self.ch is Some {
                    assert(self.remaining() =~= old(self).remaining().drop_first());
                }
            }
            return self.ch;
        } else {
            self.read_char();
            if self.ch.is_none() {
                if self.vec_idx < self.vec.len() {
                    self.vec_idx = self.vec_idx + 1;
                }
                if self.vec_idx < self.vec.len() {
                    proof {
                        assert(args[self.vec_idx as int].skip(0) =~= args[self.vec_idx as int]);
                        assert(self.remaining() =~= old(self).remaining().drop_first());
                    }
                    return Some(' ');
                } else {
                    return None;
                }
            } else {
                proof {
                    assert(self.remaining() =~= old(self).remaining().drop_first());
                }
                return self.ch;
            }
        }
    }
}

/// Whether a substitution point is among the tokens.
pub open spec fn has_slot(toks: Seq<TokenView>) -> bool {
    exists|k: int| 0 <= k < toks.len() && #[trigger] toks[k] is Substitute
}

/// A template without a substitution point gets one at its end, after a
/// space added to its last literal.
pub open spec fn with_slot(toks: Seq<TokenView>) -> Seq<TokenView> {
    if has_slot(toks) {
        toks
    } else if toks.len() > 0 && toks.last() is Literal {
        toks.update(toks.len() - 1, TokenView::Literal(toks.last()->Literal_0.push(' '))).push(
            TokenView::Substitute,
        )
    } else {
        toks.push(TokenView::Substitute)
    }
}

/// The template that the words of a command line stand for.
pub fn pre_parse_command(command_args: &Vec<String>, quotes: bool) -> (r: Vec<Token>)
    ensures
        tokens_view(r@) == with_slot(template_tokens(joined(args_view(command_args@)), quotes)),
{
    let mut cmditer = CommandIterator::from_vec(command_args);
    let mut command = String::new();
    loop
        invariant_except_break
            command@ + cmditer.remaining() == joined(args_view(command_args@)),
        invariant
            cmditer.wf(),
            cmditer.words() == args_view(command_args@),
        ensures
            command@ == joined(args_view(command_args@)),
        decreases cmditer.remaining().len(),
    {
        let ghost before = cmditer.remaining();
        match cmditer.next() {
            Some(c) => {
                let ghost prev = command@;
                push_char(&mut command, c);
                assert(command@ + cmditer.remaining() =~= prev + before);
            },
            None => {
                assert(command@ + before =~= command@);
                break;
            },
        }
    }
    let mut tokens = Token::get_tokens(command, quotes);
    let ghost toks = tokens_view(tokens@);
    let mut found = false;
    let mut i: usize = 0;
    while i < tokens.len()
        invariant
            i <= tokens@.len(),
            tokens_view(tokens@) == toks,
            found == exists|k: int| 0 <= k < i && #[trigger] toks[k] is Substitute,
        decreases tokens@.len() - i,
    {
        assert(toks[i as int] == tokens@[i as int]@);
        if matches!(tokens[i], Token::Substitute) {
            found = true;
        }
        i += 1;
        assert(found == exists|k: int| 0 <= k < i && #[trigger] toks[k] is Substitute) by {
            if found && !(exists|k: int| 0 <= k < i - 1 && #[trigger] toks[k] is Substitute) {
                assert(toks[i - 1] is Substitute);
            }
        }
    }
    if !found {
        let n = tokens.len();
        if n > 0 {
            match &tokens[n - 1] {
                Token::Literal(l) => {
                    let mut c = l.clone();
                    push_char(&mut c, ' ');
                    tokens.set(n - 1, Token::Literal(c));
                },
                Token::Substitute => {},
            }
        }
        let ghost mid = tokens_view(tokens@);
        tokens.push(Token::Substitute);
        assert(tokens_view(tokens@) =~= mid.push(TokenView::Substitute));
        assert(tokens_view(tokens@) =~= with_slot(toks));
    }
    tokens
}

/// The text of the tokens, with `job` at every substitution point.
pub open spec fn fill(toks: Seq<TokenView>, job: Seq<char>) -> Seq<char>
    decreases toks.len(),
{
    if toks.len() == 0 {
        Seq::empty()
    } else {
        fill(toks.drop_last(), job) + match toks.last() {
            TokenView::Literal(l) => l,
            TokenView::Substitute => job,
        }
    }
}

/// The command for input line `job`: the template filled in, with the line
/// appended after a space when the template has no substitution point.
pub open spec fn command_for(toks: Seq<TokenView>, job: Seq<char>) -> Seq<char> {
    if has_slot(toks) {
        fill(toks, job)
    } else {
        fill(toks, job) + seq![' '] + job
    }
}

/// The command that runs input line `job` through the template.
pub fn parse_command(tokens: &Vec<Token>, job: String) -> (r: String)
    ensures
        r@ == command_for(tokens_view(tokens@), job@),
{
    let ghost toks = tokens_view(tokens@);
    let mut substituted = false;
    let mut parsed = String::new();
    let mut i: usize = 0;
    while i < tokens.len()
        invariant
            i <= tokens@.len(),
            toks == tokens_view(tokens@),
            parsed@ == fill(toks.subrange(0, i as int), job@),
            substituted == exists|k: int| 0 <= k < i && #[trigger] toks[k] is Substitute,
        decreases tokens@.len() - i,
    {
        assert(toks.subrange(0, i + 1).drop_last() =~= toks.subrange(0, i as int));
        match &tokens[i] {
            Token::Literal(s) => {
                parsed.append(s.as_str());
            },
            Token::Substitute => {
                substituted = true;
                parsed.append(job.as_str());
            },
        }
        i += 1;
    }
    assert(toks.subrange(0, i as int) =~= toks);
    if !substituted {
        push_char(&mut parsed, ' ');
        parsed.append(job.as_str());
    }
    parsed
}

} // verus!
