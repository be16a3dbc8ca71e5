//! The renderer: walks a structured tree with a variable table and a
//! pattern-instance table and emits the output text.
//!
//! Rendering never fails: an unset variable passes through as its
//! own `{name}` placeholder, and a pattern with no registered instances renders
//! as nothing.

use vstd::prelude::*;

use crate::maps::PatMap;
use crate::maps::VarMap;
use crate::node::token_view;
use crate::node::tokens_view;
use crate::node::DocumentV;
use crate::node::Token;
use crate::node::TokenV;
use crate::strutil::push_char;

verus! {

/// The concatenation of the instances from position `i` on, in order.
pub open spec fn concat_from(ss: Seq<Seq<char>>, i: int) -> Seq<char>
    decreases ss.len() - i,
{
    if i < 0 || i >= ss.len() {
        Seq::empty()
    } else {
        ss[i] + concat_from(ss, i + 1)
    }
}

/// What one node renders to.
///
/// Literal text passes through; a variable substitutes its bound value or
/// falls back to `{name}`; a conditional renders its body when the named
/// variable is bound to a non-empty value, its else branch when present
/// otherwise; a pattern concatenates its registered instances; every other
/// node renders as nothing.
pub open spec fn render_tok(
    t: TokenV,
    vars: Map<Seq<char>, Seq<char>>,
    pats: Map<Seq<char>, Seq<Seq<char>>>,
) -> Seq<char>
    decreases t, 0nat,
{
    match t {
        TokenV::Text(s) => s,
        TokenV::Variable { name } => {
            if vars.contains_key(name) {
                vars[name]
            } else {
                seq!['{'] + name + seq!['}']
            }
        },
        TokenV::IfSet { variable_name, tokens, else_tokens } => {
            if vars.contains_key(variable_name) && vars[variable_name].len() > 0 {
                render_seq_from(tokens, 0, vars, pats)
            } else {
                match else_tokens {
                    Some(e) => render_seq_from(e, 0, vars, pats),
                    None => Seq::empty(),
                }
            }
        },
        TokenV::Pattern { pattern_name, .. } => {
            if pats.contains_key(pattern_name) {
                concat_from(pats[pattern_name], 0)
            } else {
                Seq::empty()
            }
        },
        _ => Seq::empty(),
    }
}

/// What a node sequence renders to, from position `i` on.
pub open spec fn render_seq_from(
    toks: Seq<TokenV>,
    i: int,
    vars: Map<Seq<char>, Seq<char>>,
    pats: Map<Seq<char>, Seq<Seq<char>>>,
) -> Seq<char>
    decreases toks, toks.len() - i,
{
    if i < 0 || i >= toks.len() {
        Seq::empty()
    } else {
        render_tok(toks[i], vars, pats) + render_seq_from(toks, i + 1, vars, pats)
    }
}

/// What a whole document renders to, under its own tables.
pub open spec fn render_doc(d: DocumentV) -> Seq<char> {
    render_seq_from(d.tokens, 0, d.variables, d.patterns)
}

/// Renders one node onto the output string.
fn render_token_x(t: &Token, vars: &VarMap, pats: &PatMap, out: &mut String)
    requires
        vars.wf(),
        pats.wf(),
    ensures
        final(out)@ == old(out)@ + render_tok(token_view(*t), vars@, pats@),
    decreases *t, 0nat,
{
    match t {
        Token::Text(s) => {
            out.append(s.as_str());
        },
        Token::Variable { name } => {
            match vars.get(name.as_str()) {
                Some(v) => {
                    out.append(v.as_str());
                },
                None => {
                    push_char(out, '{');
                    out.append(name.as_str());
                    push_char(out, '}');
                    proof {
                        assert(old(out)@ + (seq!['{'] + name@ + seq!['}']) =~= old(
                            out,
                        )@.push('{') + name@ + seq!['}']);
                    }
                },
            }
        },
        Token::IfSet { variable_name, tokens, else_tokens } => {
            let mut set = false;
            match vars.get(variable_name.as_str()) {
                Some(v) => {
                    if !v.as_str().is_empty() {
                        set = true;
                    }
                },
                None => {},
            }
            if set {
                render_tokens_x(tokens, 0, vars, pats, out);
            } else {
                match else_tokens {
                    Some(e) => {
                        render_tokens_x(e, 0, vars, pats, out);
                    },
                    None => {},
                }
            }
        },
        Token::Pattern { pattern_name, tokens: _ } => {
            match pats.get(pattern_name.as_str()) {
                Some(list) => {
                    let ghost insts = list.deep_view();
                    let ghost pre = out@;
                    let mut k: usize = 0;
                    while k < list.len()
                        invariant
                            k <= list@.len(),
                            insts == list.deep_view(),
                            insts.len() == list@.len(),
                            pre + concat_from(insts, 0) == out@ + concat_from(insts, k as int),
                        decreases list@.len() - k,
                    {
                        let ghost mid = out@;
                        out.append(list[k].as_str());
                        k = k + 1;
                        proof {
                            assert(insts[k - 1] == list@[k - 1]@);
                            assert(mid + (insts[k - 1] + concat_from(insts, k as int)) =~= (mid
                                + insts[k - 1]) + concat_from(insts, k as int));
                        }
                    }
                    proof {
                        assert(concat_from(insts, list@.len() as int) =~= Seq::<char>::empty());
                        assert(pre + concat_from(insts, 0) =~= out@);
                    }
                },
                None => {},
            }
        },
        Token::WrapInclude { .. } => {},
        Token::WrappedContent => {},
        Token::Else => {},
        Token::End => {},
    }
    proof {
        assert(old(out)@ + Seq::<char>::empty() =~= old(out)@);
        assert(old(out)@ + render_tok(token_view(*t), vars@, pats@) =~= final(out)@);
    }
}

/// Renders the nodes from position `i` on onto the output string.
fn render_tokens_x(toks: &Vec<Token>, i: usize, vars: &VarMap, pats: &PatMap, out: &mut String)
    requires
        i <= toks@.len(),
        vars.wf(),
        pats.wf(),
    ensures
        final(out)@ == old(out)@ + render_seq_from(tokens_view(toks@), i as int, vars@, pats@),
    decreases toks@, toks@.len() - i,
{
    if i >= toks.len() {
        proof {
            assert(old(out)@ + Seq::<char>::empty() =~= old(out)@);
            crate::node::lemma_tokens_view_len(toks@);
        }
        return;
    }
    proof {
        crate::node::lemma_tokens_view_index(toks@, i as int);
        assert(decreases_to!(toks@ => toks@[i as int]));
    }
    let ghost pre = out@;
    render_token_x(&toks[i], vars, pats, out);
    render_tokens_x(toks, i + 1, vars, pats, out);
    proof {
        let tv = tokens_view(toks@);
        assert(pre + (render_tok(tv[i as int], vars@, pats@) + render_seq_from(
            tv,
            i + 1,
            vars@,
            pats@,
        )) =~= (pre + render_tok(tv[i as int], vars@, pats@)) + render_seq_from(
            tv,
            i + 1,
            vars@,
            pats@,
        ));
    }
}

/// Renders a node sequence under the given tables.
pub(crate) fn render_all(toks: &Vec<Token>, vars: &VarMap, pats: &PatMap) -> (r: String)
    requires
        vars.wf(),
        pats.wf(),
    ensures
        r@ == render_seq_from(tokens_view(toks@), 0, vars@, pats@),
{
    let mut out = String::new();
    render_tokens_x(toks, 0, vars, pats, &mut out);
    out
}

} // verus!
