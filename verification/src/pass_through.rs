//! The pass-through law: a successful parse that emitted only text and
//! variable nodes and bound no variable renders, under empty tables, back
//! to exactly the source text it consumed.

use vstd::prelude::*;

use crate::err::ErrV;
use crate::lexer::command_act_of_inside;
use crate::lexer::flush;
use crate::lexer::lemma_scan_cmd;
use crate::lexer::lemma_scan_var;
use crate::lexer::lex_inside;
use crate::lexer::lex_rec;
use crate::lexer::parse_doc_spec;
use crate::lexer::parse_document;
use crate::lexer::scan_cmd;
use crate::lexer::scan_var;
use crate::lexer::CmdActV;
use crate::lexer::LexCtx;
use crate::lexer::LexSt;
use crate::node::DocumentV;
use crate::node::TokenV;
use crate::options::OptionsV;
use crate::render::render_doc;
use crate::render::render_seq_from;
use crate::structure::struct_rec;
use crate::structure::structure_spec;

verus! {

/// Whether every node is a text run or a variable reference.
pub open spec fn all_tv(toks: Seq<TokenV>) -> bool {
    forall|k: int|
        0 <= k < toks.len() ==> (#[trigger] toks[k] is Text || toks[k] is Variable)
}

/// The source text a run of text and variable nodes reconstructs to: text
/// verbatim, a variable as its `{name}` placeholder.
pub open spec fn recon(toks: Seq<TokenV>) -> Seq<char>
    decreases toks.len(),
{
    if toks.len() == 0 {
        Seq::empty()
    } else {
        (match toks[0] {
            TokenV::Text(t) => t,
            TokenV::Variable { name } => seq!['{'] + name + seq!['}'],
            _ => Seq::empty(),
        }) + recon(toks.drop_first())
    }
}

proof fn lemma_recon_concat(a: Seq<TokenV>, b: Seq<TokenV>)
    ensures
        recon(a + b) == recon(a) + recon(b),
    decreases a.len(),
{
    if a.len() == 0 {
        assert(a + b =~= b);
        assert(recon(a) + recon(b) =~= recon(b));
    } else {
        lemma_recon_concat(a.drop_first(), b);
        assert((a + b).drop_first() =~= a.drop_first() + b);
        assert((a + b)[0] == a[0]);
        let h = match a[0] {
            TokenV::Text(t) => t,
            TokenV::Variable { name } => seq!['{'] + name + seq!['}'],
            _ => Seq::<char>::empty(),
        };
        assert(h + (recon(a.drop_first()) + recon(b)) =~= (h + recon(a.drop_first())) + recon(
            b,
        ));
    }
}

proof fn lemma_recon_single(t: TokenV)
    ensures
        recon(seq![t]) == (match t {
            TokenV::Text(s) => s,
            TokenV::Variable { name } => seq!['{'] + name + seq!['}'],
            _ => Seq::<char>::empty(),
        }) + Seq::<char>::empty(),
{
    let s = seq![t];
    assert(s.len() == 1);
    assert(s[0] == t);
    let e = s.drop_first();
    assert(e.len() == 0);
    assert(recon(e) == Seq::<char>::empty());
}

proof fn lemma_lex_monotone(
    cs: Seq<char>,
    i: int,
    cur: Seq<char>,
    st: LexSt,
    ctx: LexCtx,
    fuel: nat,
)
    ensures
        match lex_rec(cs, i, cur, st, ctx, fuel) {
            Ok(st2) => st.toks.is_prefix_of(st2.toks) && st.vars.dom().subset_of(st2.vars.dom()),
            Err(_) => true,
        },
    decreases fuel, cs.len() - i + 1,
{
    if i < 0 || i >= cs.len() {
        assert(flush(cur, st).toks =~= if cur.len() > 0 {
            st.toks.push(TokenV::Text(cur))
        } else {
            st.toks
        });
        assert(st.toks.is_prefix_of(flush(cur, st).toks));
    } else if cs[i] == '\\' {
        if i + 1 < cs.len() {
            if cs[i + 1] == '{' {
                lemma_lex_monotone(cs, i + 2, cur.push('{'), st, ctx, fuel);
            } else {
                lemma_lex_monotone(cs, i + 2, cur.push('\\').push(cs[i + 1]), st, ctx, fuel);
            }
        } else {
            lemma_lex_monotone(cs, i + 1, cur, st, ctx, fuel);
        }
    } else if cs[i] == '{' {
        if i + 1 >= cs.len() {
            lemma_lex_monotone(cs, i + 1, cur.push('{'), st, ctx, fuel);
        } else {
            let j = if cs[i + 1] == '%' {
                scan_cmd(cs, i + 1)
            } else {
                scan_var(cs, i + 1)
            };
            lemma_scan_cmd(cs, i + 1);
            lemma_scan_var(cs, i + 1);
            let inside = cs.subrange(i + 1, j);
            if j < cs.len() && cs[j] == '}' {
                let st1 = flush(cur, st);
                assert(st.toks.is_prefix_of(st1.toks));
                lemma_inside_monotone(cs, i, j, inside, st1, ctx, fuel);
                match lex_inside(cs, i, j, inside, st1, ctx, fuel) {
                    Ok(st2) => {
                        lemma_prefix_trans(st.toks, st1.toks, st2.toks);
                    },
                    Err(_) => {},
                }
            } else {
                lemma_lex_monotone(cs, j, cur.push('{') + inside, st, ctx, fuel);
            }
        }
    } else {
        lemma_lex_monotone(cs, i + 1, cur.push(cs[i]), st, ctx, fuel);
    }
}

proof fn lemma_inside_monotone(
    cs: Seq<char>,
    i: int,
    j: int,
    inside: Seq<char>,
    st: LexSt,
    ctx: LexCtx,
    fuel: nat,
)
    ensures
        match lex_inside(cs, i, j, inside, st, ctx, fuel) {
            Ok(st2) => st.toks.is_prefix_of(st2.toks) && st.vars.dom().subset_of(st2.vars.dom()),
            Err(_) => true,
        },
    decreases fuel, cs.len() - i,
{
    if !(0 <= i < j < cs.len()) {
    } else if inside.len() == 0 {
        let st1 = LexSt { toks: st.toks.push(TokenV::Text("{}"@)), vars: st.vars };
        lemma_lex_monotone(cs, j + 1, Seq::empty(), st1, ctx, fuel);
        match lex_rec(cs, j + 1, Seq::empty(), st1, ctx, fuel) {
            Ok(st2) => {
                lemma_prefix_trans(st.toks, st1.toks, st2.toks);
            },
            Err(_) => {},
        }
    } else if inside[0] == '%' {
        match command_act_of_inside(inside) {
            CmdActV::Push(t) => {
                let st1 = LexSt { toks: st.toks.push(t), vars: st.vars };
                lemma_lex_monotone(cs, j + 1, Seq::empty(), st1, ctx, fuel);
                match lex_rec(cs, j + 1, Seq::empty(), st1, ctx, fuel) {
                    Ok(st2) => {
                        lemma_prefix_trans(st.toks, st1.toks, st2.toks);
                    },
                    Err(_) => {},
                }
            },
            CmdActV::SetVar(name, value) => {
                let st1 = LexSt { toks: st.toks, vars: st.vars.insert(name, value) };
                lemma_lex_monotone(cs, j + 1, Seq::empty(), st1, ctx, fuel);
                match lex_rec(cs, j + 1, Seq::empty(), st1, ctx, fuel) {
                    Ok(st2) => {
                        lemma_dom_subset_trans(st.vars.dom(), st1.vars.dom(), st2.vars.dom());
                    },
                    Err(_) => {},
                }
            },
            CmdActV::Include(rel) => {
                match crate::path::resolve_spec(ctx.options.include_method, ctx.tpath, rel) {
                    Err(_) => {},
                    Ok(p) => {
                        if ctx.files.contains_key(p) && fuel > 0 {
                            let ctx2 = LexCtx {
                                options: ctx.options,
                                tpath: Some(p),
                                files: ctx.files,
                            };
                            lemma_lex_monotone(
                                ctx.files[p],
                                0,
                                Seq::empty(),
                                st,
                                ctx2,
                                (fuel - 1) as nat,
                            );
                            match lex_rec(ctx.files[p], 0, Seq::empty(), st, ctx2, (fuel
                                - 1) as nat) {
                                Ok(st2) => {
                                    lemma_lex_monotone(cs, j + 1, Seq::empty(), st2, ctx, fuel);
                                    match lex_rec(cs, j + 1, Seq::empty(), st2, ctx, fuel) {
                                        Ok(st3) => {
                                            lemma_prefix_trans(st.toks, st2.toks, st3.toks);
                                            lemma_dom_subset_trans(
                                                st.vars.dom(),
                                                st2.vars.dom(),
                                                st3.vars.dom(),
                                            );
                                        },
                                        Err(_) => {},
                                    }
                                },
                                Err(_) => {},
                            }
                        }
                    },
                }
            },
            CmdActV::Wrap(rel) => {
                match crate::path::resolve_spec(ctx.options.include_method, ctx.tpath, rel) {
                    Err(_) => {},
                    Ok(p) => {
                        if ctx.files.contains_key(p) && fuel > 0 {
                            match parse_doc_spec(
                                ctx.files[p],
                                ctx.options,
                                Some(p),
                                ctx.files,
                                (fuel - 1) as nat,
                            ) {
                                Ok(d) => {
                                    let st1 = LexSt {
                                        toks: st.toks.push(
                                            TokenV::WrapInclude {
                                                document: d,
                                                tokens: Seq::empty(),
                                            },
                                        ),
                                        vars: st.vars,
                                    };
                                    lemma_lex_monotone(cs, j + 1, Seq::empty(), st1, ctx, fuel);
                                    match lex_rec(cs, j + 1, Seq::empty(), st1, ctx, fuel) {
                                        Ok(st2) => {
                                            lemma_prefix_trans(st.toks, st1.toks, st2.toks);
                                        },
                                        Err(_) => {},
                                    }
                                },
                                Err(_) => {},
                            }
                        }
                    },
                }
            },
            CmdActV::Fail(_) => {},
        }
    } else {
        let st1 = LexSt {
            toks: st.toks.push(TokenV::Variable { name: inside }),
            vars: st.vars,
        };
        lemma_lex_monotone(cs, j + 1, Seq::empty(), st1, ctx, fuel);
        match lex_rec(cs, j + 1, Seq::empty(), st1, ctx, fuel) {
            Ok(st2) => {
                lemma_prefix_trans(st.toks, st1.toks, st2.toks);
            },
            Err(_) => {},
        }
    }
}

proof fn lemma_all_tv_concat(a: Seq<TokenV>, b: Seq<TokenV>)
    ensures
        all_tv(a + b) == (all_tv(a) && all_tv(b)),
{
    if all_tv(a + b) {
        assert forall|k: int| 0 <= k < a.len() implies (a[k] is Text || a[k] is Variable) by {
            assert((a + b)[k] == a[k]);
        }
        assert forall|k: int| 0 <= k < b.len() implies (b[k] is Text || b[k] is Variable) by {
            assert((a + b)[a.len() + k] == b[k]);
        }
    }
    if all_tv(a) && all_tv(b) {
        assert forall|k: int| 0 <= k < (a + b).len() implies ((a + b)[k] is Text || (a
            + b)[k] is Variable) by {
            if k < a.len() {
                assert((a + b)[k] == a[k]);
            } else {
                assert((a + b)[k] == b[k - a.len()]);
            }
        }
    }
}

/// With nested prefixes, the outer remainder splits at the middle.
proof fn lemma_skip_decompose(a: Seq<TokenV>, b: Seq<TokenV>, c: Seq<TokenV>)
    requires
        a.is_prefix_of(b),
        b.is_prefix_of(c),
    ensures
        c.skip(a.len() as int) == b.skip(a.len() as int) + c.skip(b.len() as int),
{
    assert(c.skip(a.len() as int) =~= b.skip(a.len() as int) + c.skip(b.len() as int)) by {
        assert(a =~= b.subrange(0, a.len() as int));
        assert(b =~= c.subrange(0, b.len() as int));
        assert(forall|k: int| 0 <= k < b.len() ==> b[k] == c[k]);
    }
}

proof fn lemma_lex_recon(
    cs: Seq<char>,
    i: int,
    cur: Seq<char>,
    st: LexSt,
    ctx: LexCtx,
    fuel: nat,
)
    requires
        0 <= i <= cs.len(),
        forall|k: int| i <= k < cs.len() ==> cs[k] != '\\',
        ctx.files == Map::<Seq<char>, Seq<char>>::empty(),
        st.vars == Map::<Seq<char>, Seq<char>>::empty(),
    ensures
        match lex_rec(cs, i, cur, st, ctx, fuel) {
            Ok(st2) => st.toks.is_prefix_of(st2.toks) && ((st2.vars == Map::<
                Seq<char>,
                Seq<char>,
            >::empty() && all_tv(st2.toks.skip(st.toks.len() as int)))
                ==> recon(st2.toks.skip(st.toks.len() as int)) == cur + cs.subrange(
                i,
                cs.len() as int,
            )),
            Err(_) => true,
        },
    decreases fuel, cs.len() - i + 1,
{
    let len = cs.len() as int;
    if i >= len {
        let st2 = flush(cur, st);
        assert(st.toks.is_prefix_of(st2.toks));
        let rest = st2.toks.skip(st.toks.len() as int);
        assert(cs.subrange(i, len) =~= Seq::<char>::empty());
        if cur.len() > 0 {
            assert(rest =~= seq![TokenV::Text(cur)]);
            lemma_recon_single(TokenV::Text(cur));
            assert(cur + Seq::<char>::empty() =~= cur);
            assert(cur + cs.subrange(i, len) =~= cur);
            assert(recon(rest) == cur + cs.subrange(i, len));
        } else {
            assert(rest =~= Seq::<TokenV>::empty());
            assert(recon(rest) == Seq::<char>::empty());
            assert(cur + cs.subrange(i, len) =~= Seq::<char>::empty());
        }
    } else if cs[i] == '\\' {
        assert(false);
    } else if cs[i] == '{' {
        if i + 1 >= len {
            lemma_lex_recon(cs, i + 1, cur.push('{'), st, ctx, fuel);
            assert(cur.push('{') + cs.subrange(i + 1, len) =~= cur + cs.subrange(i, len));
        } else {
            let j = if cs[i + 1] == '%' {
                scan_cmd(cs, i + 1)
            } else {
                scan_var(cs, i + 1)
            };
            lemma_scan_cmd(cs, i + 1);
            lemma_scan_var(cs, i + 1);
            let inside = cs.subrange(i + 1, j);
            if j < len && cs[j] == '}' {
                let st1 = flush(cur, st);
                assert(st.toks.is_prefix_of(st1.toks));
                lemma_inside_recon(cs, i, j, inside, st1, ctx, fuel);
                match lex_inside(cs, i, j, inside, st1, ctx, fuel) {
                    Ok(st2) => {
                        lemma_prefix_trans(st.toks, st1.toks, st2.toks);
                        lemma_skip_decompose(st.toks, st1.toks, st2.toks);
                        let d1 = st1.toks.skip(st.toks.len() as int);
                        let d2 = st2.toks.skip(st1.toks.len() as int);
                        lemma_all_tv_concat(d1, d2);
                        lemma_recon_concat(d1, d2);
                        if st2.vars == Map::<Seq<char>, Seq<char>>::empty() && all_tv(
                            st2.toks.skip(st.toks.len() as int),
                        ) {
                            if cur.len() > 0 {
                                assert(d1 =~= seq![TokenV::Text(cur)]);
                                lemma_recon_single(TokenV::Text(cur));
                                assert(cur + Seq::<char>::empty() =~= cur);
                                assert(recon(d1) == cur);
                            } else {
                                assert(d1 =~= Seq::<TokenV>::empty());
                                assert(recon(d1) == Seq::<char>::empty());
                                assert(recon(d1) =~= cur);
                            }
                            assert(recon(d2) == cs.subrange(i, len));
                            assert(cur + cs.subrange(i, len) =~= recon(d1) + recon(d2));
                        }
                    },
                    Err(_) => {},
                }
            } else {
                lemma_lex_recon(cs, j, cur.push('{') + inside, st, ctx, fuel);
                assert((cur.push('{') + inside) + cs.subrange(j, len) =~= cur + cs.subrange(
                    i,
                    len,
                ));
            }
        }
    } else {
        lemma_lex_recon(cs, i + 1, cur.push(cs[i]), st, ctx, fuel);
        assert(cur.push(cs[i]) + cs.subrange(i + 1, len) =~= cur + cs.subrange(i, len));
    }
}

proof fn lemma_inside_recon(
    cs: Seq<char>,
    i: int,
    j: int,
    inside: Seq<char>,
    st: LexSt,
    ctx: LexCtx,
    fuel: nat,
)
    requires
        0 <= i < j < cs.len(),
        cs[i] == '{',
        cs[j] == '}',
        inside == cs.subrange(i + 1, j),
        forall|k: int| i <= k < cs.len() ==> cs[k] != '\\',
        ctx.files == Map::<Seq<char>, Seq<char>>::empty(),
        st.vars == Map::<Seq<char>, Seq<char>>::empty(),
    ensures
        match lex_inside(cs, i, j, inside, st, ctx, fuel) {
            Ok(st2) => st.toks.is_prefix_of(st2.toks) && ((st2.vars == Map::<
                Seq<char>,
                Seq<char>,
            >::empty() && all_tv(st2.toks.skip(st.toks.len() as int)))
                ==> recon(st2.toks.skip(st.toks.len() as int)) == cs.subrange(
                i,
                cs.len() as int,
            )),
            Err(_) => true,
        },
    decreases fuel, cs.len() - i,
{
    let len = cs.len() as int;
    if inside.len() == 0 {
        assert(j == i + 1);
        let st1 = LexSt { toks: st.toks.push(TokenV::Text("{}"@)), vars: st.vars };
        lemma_lex_recon(cs, j + 1, Seq::empty(), st1, ctx, fuel);
        match lex_rec(cs, j + 1, Seq::empty(), st1, ctx, fuel) {
            Ok(st2) => {
                assert(st.toks.is_prefix_of(st1.toks));
                lemma_prefix_trans(st.toks, st1.toks, st2.toks);
                lemma_skip_decompose(st.toks, st1.toks, st2.toks);
                let d1 = st1.toks.skip(st.toks.len() as int);
                let d2 = st2.toks.skip(st1.toks.len() as int);
                lemma_all_tv_concat(d1, d2);
                lemma_recon_concat(d1, d2);
                if st2.vars == Map::<Seq<char>, Seq<char>>::empty() && all_tv(
                    st2.toks.skip(st.toks.len() as int),
                ) {
                    assert(d1 =~= seq![TokenV::Text("{}"@)]);
                    lemma_recon_single(TokenV::Text("{}"@));
                    reveal_strlit("{}");
                    assert("{}"@ =~= seq!['{', '}']);
                    assert("{}"@ + Seq::<char>::empty() =~= "{}"@);
                    assert(recon(d1) == "{}"@);
                    assert(recon(d2) == Seq::<char>::empty() + cs.subrange(j + 1, len));
                    assert(Seq::<char>::empty() + cs.subrange(j + 1, len) =~= cs.subrange(
                        j + 1,
                        len,
                    ));
                    assert(recon(d1) + recon(d2) =~= cs.subrange(i, len));
                }
            },
            Err(_) => {},
        }
    } else if inside[0] == '%' {
        match command_act_of_inside(inside) {
            CmdActV::Push(t) => {
                assert(!(t is Text) && !(t is Variable));
                let st1 = LexSt { toks: st.toks.push(t), vars: st.vars };
                lemma_lex_monotone(cs, j + 1, Seq::empty(), st1, ctx, fuel);
                match lex_rec(cs, j + 1, Seq::empty(), st1, ctx, fuel) {
                    Ok(st2) => {
                        assert(st.toks.is_prefix_of(st1.toks));
                        lemma_prefix_trans(st.toks, st1.toks, st2.toks);
                        let rest = st2.toks.skip(st.toks.len() as int);
                        assert(st1.toks =~= st2.toks.subrange(0, st1.toks.len() as int));
                        assert(rest[0] == st2.toks[st.toks.len() as int]);
                        assert(st2.toks[st.toks.len() as int] == st1.toks[st.toks.len() as int]);
                        assert(rest[0] == t);
                        assert(!all_tv(rest));
                    },
                    Err(_) => {},
                }
            },
            CmdActV::SetVar(name, value) => {
                let st1 = LexSt { toks: st.toks, vars: st.vars.insert(name, value) };
                lemma_lex_monotone(cs, j + 1, Seq::empty(), st1, ctx, fuel);
                match lex_rec(cs, j + 1, Seq::empty(), st1, ctx, fuel) {
                    Ok(st2) => {
                        assert(st1.vars.dom().contains(name));
                        assert(st2.vars.dom().contains(name));
                        assert(st2.vars != Map::<Seq<char>, Seq<char>>::empty()) by {
                            assert(st2.vars.contains_key(name));
                            if st2.vars == Map::<Seq<char>, Seq<char>>::empty() {
                                assert(!Map::<Seq<char>, Seq<char>>::empty().contains_key(
                                    name,
                                ));
                            }
                        }
                    },
                    Err(_) => {},
                }
            },
            CmdActV::Include(rel) => {
                match crate::path::resolve_spec(ctx.options.include_method, ctx.tpath, rel) {
                    Err(_) => {},
                    Ok(p) => {
                        assert(!ctx.files.contains_key(p));
                    },
                }
            },
            CmdActV::Wrap(rel) => {
                match crate::path::resolve_spec(ctx.options.include_method, ctx.tpath, rel) {
                    Err(_) => {},
                    Ok(p) => {
                        assert(!ctx.files.contains_key(p));
                    },
                }
            },
            CmdActV::Fail(_) => {},
        }
    } else {
        let st1 = LexSt {
            toks: st.toks.push(TokenV::Variable { name: inside }),
            vars: st.vars,
        };
        lemma_lex_recon(cs, j + 1, Seq::empty(), st1, ctx, fuel);
        match lex_rec(cs, j + 1, Seq::empty(), st1, ctx, fuel) {
            Ok(st2) => {
                assert(st.toks.is_prefix_of(st1.toks));
                lemma_prefix_trans(st.toks, st1.toks, st2.toks);
                lemma_skip_decompose(st.toks, st1.toks, st2.toks);
                let d1 = st1.toks.skip(st.toks.len() as int);
                let d2 = st2.toks.skip(st1.toks.len() as int);
                lemma_all_tv_concat(d1, d2);
                lemma_recon_concat(d1, d2);
                if st2.vars == Map::<Seq<char>, Seq<char>>::empty() && all_tv(
                    st2.toks.skip(st.toks.len() as int),
                ) {
                    assert(d1 =~= seq![TokenV::Variable { name: inside }]);
                    lemma_recon_single(TokenV::Variable { name: inside });
                    assert((seq!['{'] + inside + seq!['}']) + Seq::<char>::empty() =~= seq!['{']
                        + inside + seq!['}']);
                    assert(recon(d1) == seq!['{'] + inside + seq!['}']);
                    assert(recon(d2) == Seq::<char>::empty() + cs.subrange(j + 1, len));
                    assert(Seq::<char>::empty() + cs.subrange(j + 1, len) =~= cs.subrange(
                        j + 1,
                        len,
                    ));
                    assert(recon(d1) + recon(d2) =~= cs.subrange(i, len));
                }
            },
            Err(_) => {},
        }
    }
}

proof fn lemma_dom_subset_trans(a: Set<Seq<char>>, b: Set<Seq<char>>, c: Set<Seq<char>>)
    requires
        a.subset_of(b),
        b.subset_of(c),
    ensures
        a.subset_of(c),
{
}

proof fn lemma_prefix_trans(a: Seq<TokenV>, b: Seq<TokenV>, c: Seq<TokenV>)
    requires
        a.is_prefix_of(b),
        b.is_prefix_of(c),
    ensures
        a.is_prefix_of(c),
{
    assert(a =~= c.subrange(0, a.len() as int)) by {
        assert(a =~= b.subrange(0, a.len() as int));
        assert(b =~= c.subrange(0, b.len() as int));
    }
}


/// Structuring leaves a sequence of text and variable nodes untouched.
proof fn lemma_structure_id_aux(rem: Seq<TokenV>, out: Seq<TokenV>)
    requires
        all_tv(rem),
    ensures
        struct_rec(rem, Seq::empty(), out) == Ok::<Seq<TokenV>, ErrV>(out + rem),
    decreases rem.len(),
{
    if rem.len() == 0 {
        assert(out + rem =~= out);
    } else {
        let t = rem[0];
        assert(t is Text || t is Variable);
        assert(!t.is_command_spec());
        assert(all_tv(rem.drop_first())) by {
            assert(forall|k: int|
                0 <= k < rem.drop_first().len() ==> rem.drop_first()[k] == rem[k + 1]);
        }
        lemma_structure_id_aux(rem.drop_first(), out.push(t));
        assert(out.push(t) + rem.drop_first() =~= out + rem);
    }
}

/// Structuring a lex result that holds only text and variable nodes gives
/// it back unchanged.
pub proof fn lemma_structure_identity(toks: Seq<TokenV>)
    requires
        all_tv(toks),
    ensures
        structure_spec(toks) == Ok::<Seq<TokenV>, ErrV>(toks),
{
    lemma_structure_id_aux(toks, Seq::empty());
    assert(Seq::<TokenV>::empty() + toks =~= toks);
}

/// With no variables bound, a sequence of text and variable nodes renders
/// to exactly the source it reconstructs to: text verbatim and each
/// placeholder as `{name}`.
pub proof fn lemma_render_unbound_is_recon(
    toks: Seq<TokenV>,
    i: int,
    pats: Map<Seq<char>, Seq<Seq<char>>>,
)
    requires
        all_tv(toks),
        0 <= i <= toks.len(),
    ensures
        render_seq_from(toks, i, Map::empty(), pats) == recon(toks.skip(i)),
    decreases toks.len() - i,
{
    if i >= toks.len() {
        assert(toks.skip(i).len() == 0);
    } else {
        lemma_render_unbound_is_recon(toks, i + 1, pats);
        let t = toks[i];
        assert(t is Text || t is Variable);
        assert(toks.skip(i)[0] == t);
        assert(toks.skip(i).drop_first() =~= toks.skip(i + 1));
        assert(toks.skip(i).len() > 0);
        let rest = recon(toks.skip(i + 1));
        match t {
            TokenV::Text(s) => {
                assert(crate::render::render_tok(t, Map::empty(), pats) == s);
                assert(recon(toks.skip(i)) == s + rest);
            },
            TokenV::Variable { name } => {
                assert(!Map::<Seq<char>, Seq<char>>::empty().contains_key(name));
                assert(crate::render::render_tok(t, Map::empty(), pats) == seq!['{'] + name
                    + seq!['}']);
                assert(recon(toks.skip(i)) == (seq!['{'] + name + seq!['}']) + rest);
            },
            _ => {
                assert(false);
            },
        }
    }
}

/// Rendering with no variables set returns the source text, with every
/// well-formed `{name}` placeholder left intact as `{name}`.
///
/// Stated for every text without escape characters whose lex emits only
/// text runs and variable placeholders and binds nothing: whenever such a
/// text parses, the parse succeeds with those nodes unchanged, and the
/// document renders back to the text itself. Escapes rewrite characters,
/// and commands consume or produce non-literal nodes, so the law cannot
/// cover them.
pub proof fn lemma_unbound_render_returns_source(text: Seq<char>, options: OptionsV)
    requires
        forall|k: int| 0 <= k < text.len() ==> text[k] != '\\',
    ensures
        ({
            let r = lex_rec(
                text,
                0,
                Seq::empty(),
                LexSt { toks: Seq::empty(), vars: Map::empty() },
                LexCtx { options, tpath: None, files: Map::empty() },
                0,
            );
            match r {
                Ok(st) => (st.vars == Map::<Seq<char>, Seq<char>>::empty() && all_tv(st.toks))
                    ==> (parse_document(text, options, None, Map::empty()) == Ok::<
                    DocumentV,
                    ErrV,
                >(
                    DocumentV {
                        options,
                        template_path: None,
                        tokens: st.toks,
                        variables: Map::empty(),
                        patterns: Map::empty(),
                    },
                ) && render_doc(
                    DocumentV {
                        options,
                        template_path: None,
                        tokens: st.toks,
                        variables: Map::empty(),
                        patterns: Map::empty(),
                    },
                ) == text),
                Err(_) => true,
            }
        }),
{
    let ctx = LexCtx { options, tpath: None, files: Map::empty() };
    let st0 = LexSt { toks: Seq::empty(), vars: Map::empty() };
    lemma_lex_recon(text, 0, Seq::empty(), st0, ctx, 0);
    assert(Map::<Seq<char>, Seq<char>>::empty().dom() =~= Set::<Seq<char>>::empty());
    match lex_rec(text, 0, Seq::empty(), st0, ctx, 0) {
        Ok(st) => {
            if st.vars == Map::<Seq<char>, Seq<char>>::empty() && all_tv(st.toks) {
                assert(st.toks.skip(0) =~= st.toks);
                assert(recon(st.toks) == Seq::<char>::empty() + text.subrange(
                    0,
                    text.len() as int,
                ));
                assert(Seq::<char>::empty() + text.subrange(0, text.len() as int) =~= text);
                lemma_structure_identity(st.toks);
                lemma_render_unbound_is_recon(st.toks, 0, Map::empty());
            }
        },
        Err(_) => {},
    }
}


/// Any non-empty text with no `{` and no incomplete escape parses, as a
/// document holding exactly one text node equal to the input, and renders
/// back to the input itself, whatever the options.
pub proof fn lemma_plain_text_round_trips(text: Seq<char>, options: OptionsV)
    requires
        text.len() > 0,
        crate::laws::no_brace(text),
        crate::laws::escapes_complete(text),
    ensures
        parse_document(text, options, None, Map::empty()) == Ok::<DocumentV, ErrV>(
            DocumentV {
                options,
                template_path: None,
                tokens: seq![TokenV::Text(text)],
                variables: Map::empty(),
                patterns: Map::empty(),
            },
        ),
        render_doc(
            DocumentV {
                options,
                template_path: None,
                tokens: seq![TokenV::Text(text)],
                variables: Map::empty(),
                patterns: Map::empty(),
            },
        ) == text,
{
    let ctx = LexCtx { options, tpath: None, files: Map::empty() };
    crate::laws::lemma_plain_text_lexes_to_one_node(text, ctx, 0);
    assert(Map::<Seq<char>, Seq<char>>::empty().dom() =~= Set::<Seq<char>>::empty());
    let toks = seq![TokenV::Text(text)];
    assert(all_tv(toks)) by {
        assert(toks[0] is Text);
    }
    lemma_structure_identity(toks);
    lemma_render_unbound_is_recon(toks, 0, Map::empty());
    assert(toks.skip(0) =~= toks);
    lemma_recon_single(TokenV::Text(text));
    assert(text + Seq::<char>::empty() =~= text);
}

} // verus!
