//! The structuring pass: turns the flat lexed node sequence into a nested
//! tree by matching composite-opening markers with their closing `End`,
//! recognizing `Else` as the branch divider of a conditional, and splicing a
//! top-level wrap-include's body into its wrapped document.

use vstd::prelude::*;

use crate::err::ErrV;
use crate::err::ParseError;
use crate::node::lemma_tokens_view_push;
use crate::node::lemma_tokens_view_remove_first;
use crate::node::token_view;
use crate::node::tokens_view;
use crate::node::Document;
use crate::node::DocumentV;
use crate::node::Token;
use crate::node::TokenV;

verus! {

/// An open composite that is still collecting its body.
pub enum Frame {
    IfSet { variable_name: String, tokens: Vec<Token>, else_tokens: Option<Vec<Token>> },
    Pattern { pattern_name: String, tokens: Vec<Token> },
    Wrap { document: Document, tokens: Vec<Token> },
}

/// Mathematical image of `Frame`.
pub enum FrameV {
    IfSet { variable_name: Seq<char>, tokens: Seq<TokenV>, else_tokens: Option<Seq<TokenV>> },
    Pattern { pattern_name: Seq<char>, tokens: Seq<TokenV> },
    Wrap { document: DocumentV, tokens: Seq<TokenV> },
}

pub open(crate) spec fn frame_view(f: Frame) -> FrameV
    decreases f,
{
    match f {
        Frame::IfSet { variable_name, tokens, else_tokens } => FrameV::IfSet {
            variable_name: variable_name@,
            tokens: tokens_view(tokens@),
            else_tokens: match else_tokens {
                Some(e) => Some(tokens_view(e@)),
                None => None,
            },
        },
        Frame::Pattern { pattern_name, tokens } => FrameV::Pattern {
            pattern_name: pattern_name@,
            tokens: tokens_view(tokens@),
        },
        Frame::Wrap { document, tokens } => FrameV::Wrap {
            document: crate::node::doc_view(document),
            tokens: tokens_view(tokens@),
        },
    }
}

pub open(crate) spec fn frames_view(fs: Seq<Frame>) -> Seq<FrameV>
    decreases fs,
{
    if fs.len() == 0 {
        Seq::empty()
    } else {
        frames_view(fs.drop_last()).push(frame_view(fs.last()))
    }
}

/// Appends a node to whichever body the frame is collecting: the else branch
/// of a divided conditional, or the primary body otherwise.
pub open spec fn frame_push(f: FrameV, t: TokenV) -> FrameV {
    match f {
        FrameV::IfSet { variable_name, tokens, else_tokens } => match else_tokens {
            None => FrameV::IfSet { variable_name, tokens: tokens.push(t), else_tokens },
            Some(e) => FrameV::IfSet {
                variable_name,
                tokens,
                else_tokens: Some(e.push(t)),
            },
        },
        FrameV::Pattern { pattern_name, tokens } => FrameV::Pattern {
            pattern_name,
            tokens: tokens.push(t),
        },
        FrameV::Wrap { document, tokens } => FrameV::Wrap { document, tokens: tokens.push(t) },
    }
}

/// The finished composite a closed frame stands for.
pub open spec fn frame_close(f: FrameV) -> TokenV {
    match f {
        FrameV::IfSet { variable_name, tokens, else_tokens } => TokenV::IfSet {
            variable_name,
            tokens,
            else_tokens,
        },
        FrameV::Pattern { pattern_name, tokens } => TokenV::Pattern { pattern_name, tokens },
        FrameV::Wrap { document, tokens } => TokenV::WrapInclude { document, tokens },
    }
}

/// The frame a composite-opening node begins; only meaningful for the three
/// command variants.
pub open spec fn frame_open(t: TokenV) -> FrameV {
    match t {
        TokenV::IfSet { variable_name, tokens, else_tokens } => FrameV::IfSet {
            variable_name,
            tokens,
            else_tokens,
        },
        TokenV::Pattern { pattern_name, tokens } => FrameV::Pattern { pattern_name, tokens },
        TokenV::WrapInclude { document, tokens } => FrameV::Wrap { document, tokens },
        _ => FrameV::Pattern { pattern_name: Seq::empty(), tokens: Seq::empty() },
    }
}

/// Replaces the first `WrappedContent` among the wrapped document's nodes by
/// the collected splice body; any later occurrence is dropped.
pub open spec fn splice_wrap(doc_toks: Seq<TokenV>, body: Seq<TokenV>) -> Seq<TokenV>
    decreases doc_toks.len(),
{
    if doc_toks.len() == 0 {
        Seq::empty()
    } else if doc_toks[0] is WrappedContent {
        body + splice_wrap(doc_toks.drop_first(), Seq::empty())
    } else {
        seq![doc_toks[0]] + splice_wrap(doc_toks.drop_first(), body)
    }
}

/// One pass over the remaining flat nodes with a stack of open composites.
///
/// A composite-opening node pushes a frame; `End` closes the innermost frame,
/// splicing a wrap-include when it was opened at the top level and appending
/// the finished node otherwise; `Else` divides the innermost conditional; any
/// other node joins the innermost body, or the output when nothing is open.
/// Input ending with an open frame is an unclosed command.
pub open spec fn struct_rec(
    rem: Seq<TokenV>,
    stack: Seq<FrameV>,
    out: Seq<TokenV>,
) -> Result<Seq<TokenV>, ErrV>
    decreases rem.len(),
{
    if rem.len() == 0 {
        if stack.len() == 0 {
            Ok(out)
        } else {
            Err(ErrV::UnclosedCommand)
        }
    } else {
        let t = rem[0];
        let rest = rem.drop_first();
        if t.is_command_spec() {
            struct_rec(rest, stack.push(frame_open(t)), out)
        } else if stack.len() == 0 {
            struct_rec(rest, stack, out.push(t))
        } else {
            let f = stack.last();
            let popped = stack.drop_last();
            match t {
                TokenV::End => {
                    if popped.len() == 0 {
                        match f {
                            FrameV::Wrap { document, tokens } => struct_rec(
                                rest,
                                popped,
                                out + splice_wrap(document.tokens, tokens),
                            ),
                            _ => struct_rec(rest, popped, out.push(frame_close(f))),
                        }
                    } else {
                        struct_rec(
                            rest,
                            popped.drop_last().push(frame_push(popped.last(), frame_close(f))),
                            out,
                        )
                    }
                },
                TokenV::Else => {
                    match f {
                        FrameV::IfSet { variable_name, tokens, else_tokens } => struct_rec(
                            rest,
                            popped.push(
                                FrameV::IfSet {
                                    variable_name,
                                    tokens,
                                    else_tokens: Some(Seq::empty()),
                                },
                            ),
                            out,
                        ),
                        _ => struct_rec(rest, popped.push(frame_push(f, t)), out),
                    }
                },
                _ => struct_rec(rest, popped.push(frame_push(f, t)), out),
            }
        }
    }
}

/// The whole structuring pass over a lexed sequence.
pub open spec fn structure_spec(toks: Seq<TokenV>) -> Result<Seq<TokenV>, ErrV> {
    struct_rec(toks, Seq::empty(), Seq::empty())
}

pub proof fn lemma_frames_view_push(fs: Seq<Frame>, f: Frame)
    ensures
        frames_view(fs.push(f)) == frames_view(fs).push(frame_view(f)),
{
    assert(fs.push(f).drop_last() =~= fs);
    assert(frames_view(fs.push(f)) =~= frames_view(fs).push(frame_view(f)));
}

pub proof fn lemma_frames_view_len(fs: Seq<Frame>)
    ensures
        frames_view(fs).len() == fs.len(),
    decreases fs,
{
    if fs.len() > 0 {
        lemma_frames_view_len(fs.drop_last());
    }
}

pub proof fn lemma_tokens_view_concat(a: Seq<Token>, b: Seq<Token>)
    ensures
        tokens_view(a + b) == tokens_view(a) + tokens_view(b),
    decreases b,
{
    if b.len() == 0 {
        assert(a + b =~= a);
        assert(tokens_view(a) + tokens_view(b) =~= tokens_view(a));
    } else {
        lemma_tokens_view_concat(a, b.drop_last());
        assert((a + b).drop_last() =~= a + b.drop_last());
        assert((a + b).last() == b.last());
        assert(tokens_view(a + b) == tokens_view(a + b.drop_last()).push(token_view(b.last())));
        assert(tokens_view(a) + tokens_view(b) =~= (tokens_view(a) + tokens_view(
            b.drop_last(),
        )).push(token_view(b.last())));
    }
}

/// Appends a node to the body the frame is collecting.
fn frame_push_x(f: Frame, t: Token) -> (r: Frame)
    ensures
        frame_view(r) == frame_push(frame_view(f), token_view(t)),
{
    match f {
        Frame::IfSet { variable_name, mut tokens, else_tokens } => {
            match else_tokens {
                None => {
                    proof {
                        lemma_tokens_view_push(tokens@, t);
                    }
                    tokens.push(t);
                    Frame::IfSet { variable_name, tokens, else_tokens: None }
                },
                Some(mut e) => {
                    proof {
                        lemma_tokens_view_push(e@, t);
                    }
                    e.push(t);
                    Frame::IfSet { variable_name, tokens, else_tokens: Some(e) }
                },
            }
        },
        Frame::Pattern { pattern_name, mut tokens } => {
            proof {
                lemma_tokens_view_push(tokens@, t);
            }
            tokens.push(t);
            Frame::Pattern { pattern_name, tokens }
        },
        Frame::Wrap { document, mut tokens } => {
            proof {
                lemma_tokens_view_push(tokens@, t);
            }
            tokens.push(t);
            Frame::Wrap { document, tokens }
        },
    }
}

/// The finished composite node a closed frame stands for.
fn frame_close_x(f: Frame) -> (r: Token)
    ensures
        token_view(r) == frame_close(frame_view(f)),
{
    match f {
        Frame::IfSet { variable_name, tokens, else_tokens } => Token::IfSet {
            variable_name,
            tokens,
            else_tokens,
        },
        Frame::Pattern { pattern_name, tokens } => Token::Pattern { pattern_name, tokens },
        Frame::Wrap { document, tokens } => Token::WrapInclude { document, tokens },
    }
}

/// Replaces the first `WrappedContent` among the wrapped nodes by the body.
fn splice_wrap_x(doc_toks: Vec<Token>, body: Vec<Token>) -> (r: Vec<Token>)
    ensures
        tokens_view(r@) == splice_wrap(tokens_view(doc_toks@), tokens_view(body@)),
{
    let ghost target = splice_wrap(tokens_view(doc_toks@), tokens_view(body@));
    let mut d = doc_toks;
    let mut b = body;
    let mut out: Vec<Token> = Vec::new();
    while d.len() > 0
        invariant
            target == tokens_view(out@) + splice_wrap(tokens_view(d@), tokens_view(b@)),
        decreases d@.len(),
    {
        let ghost d0 = d@;
        let ghost out0 = out@;
        let ghost b0 = b@;
        let t = d.remove(0);
        proof {
            lemma_tokens_view_remove_first(d0);
            assert(tokens_view(d0)[0] == token_view(t)) by {
                assert(tokens_view(d0) == seq![token_view(d0[0])] + tokens_view(d0.drop_first()));
            }
            assert(tokens_view(d0).drop_first() =~= tokens_view(d@));
            assert(tokens_view(d0).len() > 0);
        }
        match t {
            Token::WrappedContent => {
                out.append(&mut b);
                proof {
                    lemma_tokens_view_concat(out0, b0);
                    assert(out@ =~= out0 + b0);
                    assert(tokens_view(b@) =~= Seq::<TokenV>::empty());
                    assert(splice_wrap(tokens_view(d0), tokens_view(b0)) == tokens_view(b0)
                        + splice_wrap(tokens_view(d@), Seq::empty()));
                    assert(tokens_view(out@) + splice_wrap(tokens_view(d@), tokens_view(b@))
                        =~= target);
                }
            },
            t => {
                let ghost tv = token_view(t);
                out.push(t);
                proof {
                    lemma_tokens_view_push(out0, t);
                    assert(!(tokens_view(d0)[0] is WrappedContent));
                    assert(splice_wrap(tokens_view(d0), tokens_view(b0)) == seq![tv]
                        + splice_wrap(tokens_view(d@), tokens_view(b0)));
                    assert(tokens_view(out@) + splice_wrap(tokens_view(d@), tokens_view(b@))
                        =~= target);
                }
            },
        }
    }
    proof {
        assert(tokens_view(d@) =~= Seq::<TokenV>::empty());
        assert(tokens_view(out@) + splice_wrap(Seq::empty(), tokens_view(b@)) =~= tokens_view(
            out@,
        ));
    }
    out
}

/// Runs structuring over a lexed sequence, as `structure_spec` describes it.
pub fn structure_tokens(tokens: Vec<Token>) -> (r: Result<Vec<Token>, ParseError>)
    ensures
        match r {
            Ok(out) => structure_spec(tokens_view(tokens@)) == Ok::<Seq<TokenV>, ErrV>(
                tokens_view(out@),
            ),
            Err(e) => structure_spec(tokens_view(tokens@)) == Err::<Seq<TokenV>, ErrV>(e@),
        },
{
    let ghost target = structure_spec(tokens_view(tokens@));
    let mut rem = tokens;
    let mut stack: Vec<Frame> = Vec::new();
    let mut out: Vec<Token> = Vec::new();
    while rem.len() > 0
        invariant
            target == struct_rec(tokens_view(rem@), frames_view(stack@), tokens_view(out@)),
        decreases rem@.len(),
    {
        let ghost rem0 = rem@;
        let ghost stack0 = stack@;
        let ghost out0 = out@;
        let t = rem.remove(0);
        proof {
            lemma_tokens_view_remove_first(rem0);
            assert(tokens_view(rem0)[0] == token_view(t)) by {
                assert(tokens_view(rem0) == seq![token_view(rem0[0])] + tokens_view(
                    rem0.drop_first(),
                ));
            }
            assert(tokens_view(rem0).drop_first() =~= tokens_view(rem@));
            assert(tokens_view(rem0).len() > 0);
            lemma_frames_view_len(stack0);
        }
        if t.is_command() {
            let fr = match t {
                Token::IfSet { variable_name, tokens, else_tokens } => Frame::IfSet {
                    variable_name,
                    tokens,
                    else_tokens,
                },
                Token::Pattern { pattern_name, tokens } => Frame::Pattern {
                    pattern_name,
                    tokens,
                },
                Token::WrapInclude { document, tokens } => Frame::Wrap { document, tokens },
                _ => {
                    proof {
                        assert(false);
                    }
                    Frame::Pattern { pattern_name: String::new(), tokens: Vec::new() }
                },
            };
            proof {
                lemma_frames_view_push(stack0, fr);
            }
            stack.push(fr);
        } else if stack.len() == 0 {
            proof {
                lemma_tokens_view_push(out0, t);
            }
            out.push(t);
        } else {
            let f = stack.pop().unwrap();
            let ghost stack1 = stack@;
            proof {
                assert(stack0.drop_last() =~= stack1);
                assert(frames_view(stack0).last() == frame_view(f));
                assert(frames_view(stack0).drop_last() =~= frames_view(stack1));
                lemma_frames_view_len(stack1);
            }
            match t {
                Token::End => {
                    if stack.len() == 0 {
                        match f {
                            Frame::Wrap { document, tokens } => {
                                let spliced = splice_wrap_x(document.tokens, tokens);
                                let ghost outmid = out@;
                                let ghost spl = spliced@;
                                let mut spliced = spliced;
                                out.append(&mut spliced);
                                proof {
                                    lemma_tokens_view_concat(outmid, spl);
                                    assert(out@ =~= outmid + spl);
                                }
                            },
                            f => {
                                let node = frame_close_x(f);
                                proof {
                                    lemma_tokens_view_push(out@, node);
                                }
                                out.push(node);
                            },
                        }
                    } else {
                        let node = frame_close_x(f);
                        let parent = stack.pop().unwrap();
                        let ghost stack2 = stack@;
                        proof {
                            assert(stack1.drop_last() =~= stack2);
                            assert(frames_view(stack1).last() == frame_view(parent));
                            assert(frames_view(stack1).drop_last() =~= frames_view(stack2));
                        }
                        let parent2 = frame_push_x(parent, node);
                        proof {
                            lemma_frames_view_push(stack2, parent2);
                        }
                        stack.push(parent2);
                    }
                },
                Token::Else => {
                    match f {
                        Frame::IfSet { variable_name, tokens, else_tokens: _ } => {
                            let nf = Frame::IfSet {
                                variable_name,
                                tokens,
                                else_tokens: Some(Vec::new()),
                            };
                            proof {
                                assert(tokens_view(Seq::<Token>::empty())
                                    =~= Seq::<TokenV>::empty());
                                lemma_frames_view_push(stack1, nf);
                            }
                            stack.push(nf);
                        },
                        f => {
                            let nf = frame_push_x(f, Token::Else);
                            proof {
                                lemma_frames_view_push(stack1, nf);
                            }
                            stack.push(nf);
                        },
                    }
                },
                t => {
                    let nf = frame_push_x(f, t);
                    proof {
                        lemma_frames_view_push(stack1, nf);
                    }
                    stack.push(nf);
                },
            }
        }
    }
    proof {
        assert(tokens_view(rem@) =~= Seq::<TokenV>::empty());
        lemma_frames_view_len(stack@);
    }
    if stack.len() == 0 {
        Ok(out)
    } else {
        Err(ParseError::UnclosedCommand)
    }
}

} // verus!
