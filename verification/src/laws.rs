//! General properties of the pipeline, stated and proved once for all
//! inputs: how escapes lex, how plain text lexes, how conditionals and
//! pattern slots render, how a wrapped document splices, and when a missing
//! file fails a parse.

use vstd::prelude::*;

use crate::document::parse_file;
use crate::err::ErrV;
use crate::lexer::lex_rec;
use crate::lexer::read_missing_inner;
use crate::lexer::LexCtx;
use crate::lexer::LexSt;
use crate::node::DocumentV;
use crate::node::TokenV;
use crate::options::OptionsV;
use crate::render::concat_from;
use crate::render::render_seq_from;
use crate::render::render_tok;
use crate::structure::splice_wrap;

verus! {

/// A conditional whose variable is bound to the empty string renders its
/// else branch: an empty value counts as unset.
pub proof fn lemma_ifset_empty_renders_else(
    name: Seq<char>,
    body: Seq<TokenV>,
    els: Seq<TokenV>,
    vars: Map<Seq<char>, Seq<char>>,
    pats: Map<Seq<char>, Seq<Seq<char>>>,
)
    requires
        vars.contains_key(name),
        vars[name].len() == 0,
    ensures
        render_tok(
            TokenV::IfSet { variable_name: name, tokens: body, else_tokens: Some(els) },
            vars,
            pats,
        ) == render_seq_from(els, 0, vars, pats),
{
}

/// A conditional whose variable is bound to any non-empty string renders its
/// primary body.
pub proof fn lemma_ifset_nonempty_renders_body(
    name: Seq<char>,
    body: Seq<TokenV>,
    els: Option<Seq<TokenV>>,
    vars: Map<Seq<char>, Seq<char>>,
    pats: Map<Seq<char>, Seq<Seq<char>>>,
)
    requires
        vars.contains_key(name),
        vars[name].len() > 0,
    ensures
        render_tok(
            TokenV::IfSet { variable_name: name, tokens: body, else_tokens: els },
            vars,
            pats,
        ) == render_seq_from(body, 0, vars, pats),
{
}

pub proof fn lemma_concat_push(ss: Seq<Seq<char>>, s: Seq<char>, i: int)
    requires
        0 <= i <= ss.len(),
    ensures
        concat_from(ss.push(s), i) == concat_from(ss, i) + s,
    decreases ss.len() - i,
{
    if i == ss.len() {
        assert(concat_from(ss.push(s), i) == ss.push(s)[i] + concat_from(ss.push(s), i + 1));
        assert(concat_from(ss.push(s), i + 1) =~= Seq::<char>::empty());
        assert(concat_from(ss, i) =~= Seq::<char>::empty());
        assert(concat_from(ss.push(s), i) =~= concat_from(ss, i) + s);
    } else {
        lemma_concat_push(ss, s, i + 1);
        assert(ss.push(s)[i] == ss[i]);
        assert(ss[i] + (concat_from(ss, i + 1) + s) =~= (ss[i] + concat_from(ss, i + 1)) + s);
    }
}

/// Registering two rendered instances under one name, one after the other,
/// makes the pattern's slot render as what stood there before followed by
/// the first instance and then the second: concatenation in registration
/// order.
pub proof fn lemma_pattern_instances_in_order(
    name: Seq<char>,
    body: Seq<TokenV>,
    vars: Map<Seq<char>, Seq<char>>,
    pats: Map<Seq<char>, Seq<Seq<char>>>,
    s1: Seq<char>,
    s2: Seq<char>,
)
    ensures
        ({
            let prior = if pats.contains_key(name) {
                pats[name]
            } else {
                Seq::<Seq<char>>::empty()
            };
            render_tok(
                TokenV::Pattern { pattern_name: name, tokens: body },
                vars,
                pats.insert(name, prior.push(s1)).insert(name, prior.push(s1).push(s2)),
            ) == concat_from(prior, 0) + s1 + s2
        }),
{
    let prior = if pats.contains_key(name) {
        pats[name]
    } else {
        Seq::<Seq<char>>::empty()
    };
    let p2 = pats.insert(name, prior.push(s1)).insert(name, prior.push(s1).push(s2));
    assert(p2.contains_key(name));
    assert(p2[name] == prior.push(s1).push(s2));
    lemma_concat_push(prior, s1, 0);
    lemma_concat_push(prior.push(s1), s2, 0);
}

/// What one escape step does: a backslash before `{` commits a literal `{`
/// to the pending text, never opening a placeholder, and a backslash before
/// any other character passes both characters through unchanged.
pub proof fn lemma_escape_step(
    cs: Seq<char>,
    i: int,
    cur: Seq<char>,
    st: LexSt,
    ctx: LexCtx,
    fuel: nat,
)
    requires
        0 <= i,
        i + 2 <= cs.len(),
        cs[i] == '\\',
    ensures
        cs[i + 1] == '{' ==> lex_rec(cs, i, cur, st, ctx, fuel) == lex_rec(
            cs,
            i + 2,
            cur.push('{'),
            st,
            ctx,
            fuel,
        ),
        cs[i + 1] != '{' ==> lex_rec(cs, i, cur, st, ctx, fuel) == lex_rec(
            cs,
            i + 2,
            cur.push('\\').push(cs[i + 1]),
            st,
            ctx,
            fuel,
        ),
{
}

/// A parse from a file set that does not hold the named file fails with a
/// read error naming exactly that path; it never quietly yields a document.
pub proof fn lemma_missing_file_fails(
    path: Seq<char>,
    options: OptionsV,
    files: Map<Seq<char>, Seq<char>>,
)
    requires
        !files.contains_key(path),
    ensures
        parse_file(path, options, files) == Err::<DocumentV, ErrV>(
            ErrV::ReadError { file: path, inner: read_missing_inner() },
        ),
{
}

/// Splicing a body into a wrapped document that holds exactly one splice
/// point keeps everything before it, then the body, then everything after.
pub proof fn lemma_splice_single_point(pre: Seq<TokenV>, post: Seq<TokenV>, body: Seq<TokenV>)
    requires
        forall|k: int| 0 <= k < pre.len() ==> !(#[trigger] pre[k] is WrappedContent),
        forall|k: int| 0 <= k < post.len() ==> !(#[trigger] post[k] is WrappedContent),
    ensures
        splice_wrap(pre + seq![TokenV::WrappedContent] + post, body) == pre + body + post,
    decreases pre.len(),
{
    let d = pre + seq![TokenV::WrappedContent] + post;
    if pre.len() == 0 {
        assert(d[0] is WrappedContent);
        assert(d.drop_first() =~= post);
        lemma_splice_untouched(post);
        assert(splice_wrap(d, body) =~= pre + body + post);
    } else {
        assert(d[0] == pre[0]);
        assert(!(d[0] is WrappedContent));
        assert(d.drop_first() =~= pre.drop_first() + seq![TokenV::WrappedContent] + post);
        lemma_splice_single_point(pre.drop_first(), post, body);
        assert(splice_wrap(d, body) == seq![d[0]] + (pre.drop_first() + body + post));
        assert(seq![d[0]] + (pre.drop_first() + body + post) =~= pre + body + post);
    }
}

/// No whole placeholder opens in the text.
pub open spec fn no_brace(s: Seq<char>) -> bool {
    forall|k: int| 0 <= k < s.len() ==> s[k] != '{'
}

/// The escape scanner never ends mid-escape: every backslash has a
/// character after it. In particular any text without backslashes
/// qualifies.
pub open spec fn escapes_complete(s: Seq<char>) -> bool
    decreases s.len(),
{
    if s.len() == 0 {
        true
    } else if s[0] == '\\' {
        s.len() >= 2 && escapes_complete(s.subrange(2, s.len() as int))
    } else {
        escapes_complete(s.subrange(1, s.len() as int))
    }
}

/// A text without backslashes has no incomplete escape.
pub proof fn lemma_no_backslash_escapes_complete(s: Seq<char>)
    requires
        forall|k: int| 0 <= k < s.len() ==> s[k] != '\\',
    ensures
        escapes_complete(s),
    decreases s.len(),
{
    if s.len() > 0 {
        lemma_no_backslash_escapes_complete(s.subrange(1, s.len() as int));
    }
}

proof fn lemma_plain_lex_aux(
    cs: Seq<char>,
    i: int,
    cur: Seq<char>,
    st: LexSt,
    ctx: LexCtx,
    fuel: nat,
)
    requires
        0 <= i <= cs.len(),
        forall|k: int| i <= k < cs.len() ==> cs[k] != '{',
        escapes_complete(cs.subrange(i, cs.len() as int)),
        cur.len() + (cs.len() - i) > 0,
    ensures
        lex_rec(cs, i, cur, st, ctx, fuel) == Ok::<LexSt, ErrV>(
            LexSt {
                toks: st.toks.push(TokenV::Text(cur + cs.subrange(i, cs.len() as int))),
                vars: st.vars,
            },
        ),
    decreases cs.len() - i,
{
    let len = cs.len() as int;
    let suf = cs.subrange(i, len);
    if i == len {
        assert(cur + suf =~= cur);
    } else if cs[i] == '\\' {
        assert(suf[0] == '\\');
        assert(suf.len() >= 2);
        assert(i + 1 < len);
        let c = cs[i + 1];
        assert(suf[1] == c);
        assert(c != '{');
        assert(cs.subrange(i + 2, len) =~= suf.subrange(2, suf.len() as int));
        lemma_plain_lex_aux(cs, i + 2, cur.push('\\').push(c), st, ctx, fuel);
        assert(cur.push('\\').push(c) + cs.subrange(i + 2, len) =~= cur + suf);
    } else {
        let c = cs[i];
        assert(suf[0] == c);
        assert(c != '{');
        assert(cs.subrange(i + 1, len) =~= suf.subrange(1, suf.len() as int));
        lemma_plain_lex_aux(cs, i + 1, cur.push(c), st, ctx, fuel);
        assert(cur.push(c) + cs.subrange(i + 1, len) =~= cur + suf);
    }
}

/// Any non-empty text with no `{` and no incomplete escape lexes to exactly
/// one text node holding the input itself, and binds nothing.
pub proof fn lemma_plain_text_lexes_to_one_node(text: Seq<char>, ctx: LexCtx, fuel: nat)
    requires
        text.len() > 0,
        no_brace(text),
        escapes_complete(text),
    ensures
        lex_rec(
            text,
            0,
            Seq::empty(),
            LexSt { toks: Seq::empty(), vars: Map::empty() },
            ctx,
            fuel,
        ) == Ok::<LexSt, ErrV>(
            LexSt { toks: seq![TokenV::Text(text)], vars: Map::empty() },
        ),
{
    assert(text.subrange(0, text.len() as int) =~= text);
    lemma_plain_lex_aux(
        text,
        0,
        Seq::empty(),
        LexSt { toks: Seq::empty(), vars: Map::empty() },
        ctx,
        fuel,
    );
    assert(Seq::<char>::empty() + text =~= text);
    assert(Seq::<TokenV>::empty().push(TokenV::Text(text)) =~= seq![TokenV::Text(text)]);
}

/// A sequence without a splice point passes through splicing unchanged when
/// nothing is left to splice in.
proof fn lemma_splice_untouched(toks: Seq<TokenV>)
    requires
        forall|k: int| 0 <= k < toks.len() ==> !(#[trigger] toks[k] is WrappedContent),
    ensures
        splice_wrap(toks, Seq::empty()) == toks,
    decreases toks.len(),
{
    if toks.len() > 0 {
        lemma_splice_untouched(toks.drop_first());
        assert(splice_wrap(toks, Seq::empty()) =~= toks);
    }
}

} // verus!
