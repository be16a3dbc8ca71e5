//! The lexer: scans raw text character by character into the flat node
//! sequence, resolving `set` commands and file includes as it goes.
//!
//! A backslash immediately before `{` escapes the brace; a bare `{` opens a
//! placeholder whose kind the next character decides (`%` begins a command,
//! anything else a variable name). An invalid placeholder is pushed back
//! into the surrounding text verbatim. Include commands splice the referenced
//! file's lexed nodes inline; wrap-include commands parse the referenced file
//! as a complete sub-document up front.

use vstd::prelude::*;

use crate::err::ErrV;
use crate::err::ParseError;
use crate::maps::FileSet;
use crate::maps::PatMap;
use crate::maps::VarMap;
use crate::node::doc_view;
use crate::node::doc_wf;
use crate::node::lemma_tokens_view_push;
use crate::node::token_view;
use crate::node::tokens_view;
use crate::node::Document;
use crate::node::DocumentV;
use crate::node::Token;
use crate::node::TokenV;
use crate::options::IncludeMethod;
use crate::options::Options;
use crate::options::OptionsV;
use crate::path::resolve_spec;
use crate::structure::structure_spec;
use crate::strutil::is_space_char;

verus! {

/// The lexer's running state: nodes emitted so far and variables bound so
/// far (by `set` commands).
pub struct LexSt {
    pub toks: Seq<TokenV>,
    pub vars: Map<Seq<char>, Seq<char>>,
}

/// What a lex runs against: the parse options, the template file's own path
/// if it has one, and the file set includes are looked up in.
pub struct LexCtx {
    pub options: OptionsV,
    pub tpath: Option<Seq<char>>,
    pub files: Map<Seq<char>, Seq<char>>,
}

/// Emits the pending literal text as a node, if any is pending.
pub open spec fn flush(cur: Seq<char>, st: LexSt) -> LexSt {
    if cur.len() > 0 {
        LexSt { toks: st.toks.push(TokenV::Text(cur)), vars: st.vars }
    } else {
        st
    }
}

/// The first position at or after `j` holding `}`, or the end of input.
pub open spec fn scan_cmd(cs: Seq<char>, j: int) -> int
    decreases cs.len() - j,
{
    if j >= cs.len() {
        cs.len() as int
    } else if cs[j] == '}' {
        j
    } else {
        scan_cmd(cs, j + 1)
    }
}

/// The first position at or after `j` holding `}` or white space, or the end
/// of input.
pub open spec fn scan_var(cs: Seq<char>, j: int) -> int
    decreases cs.len() - j,
{
    if j >= cs.len() {
        cs.len() as int
    } else if cs[j] == '}' || is_space_char(cs[j]) {
        j
    } else {
        scan_var(cs, j + 1)
    }
}

pub proof fn lemma_scan_cmd(cs: Seq<char>, j: int)
    requires
        0 <= j <= cs.len(),
    ensures
        j <= scan_cmd(cs, j) <= cs.len(),
        scan_cmd(cs, j) < cs.len() ==> cs[scan_cmd(cs, j)] == '}',
        forall|k: int| j <= k < scan_cmd(cs, j) ==> cs[k] != '}',
    decreases cs.len() - j,
{
    if j < cs.len() && cs[j] != '}' {
        lemma_scan_cmd(cs, j + 1);
    }
}

pub proof fn lemma_scan_var(cs: Seq<char>, j: int)
    requires
        0 <= j <= cs.len(),
    ensures
        j <= scan_var(cs, j) <= cs.len(),
        scan_var(cs, j) < cs.len() ==> (cs[scan_var(cs, j)] == '}' || is_space_char(
            cs[scan_var(cs, j)],
        )),
        forall|k: int|
            j <= k < scan_var(cs, j) ==> (cs[k] != '}' && !is_space_char(cs[k])),
    decreases cs.len() - j,
{
    if j < cs.len() && cs[j] != '}' && !is_space_char(cs[j]) {
        lemma_scan_var(cs, j + 1);
    }
}

/// The sequence without its leading white space.
pub open spec fn trim_front(s: Seq<char>) -> Seq<char>
    decreases s.len(),
{
    if s.len() > 0 && is_space_char(s[0]) {
        trim_front(s.drop_first())
    } else {
        s
    }
}

/// The sequence without its trailing white space.
pub open spec fn trim_back(s: Seq<char>) -> Seq<char>
    decreases s.len(),
{
    if s.len() > 0 && is_space_char(s.last()) {
        trim_back(s.drop_last())
    } else {
        s
    }
}

/// The sequence without leading and trailing white space.
pub open spec fn trim_spec(s: Seq<char>) -> Seq<char> {
    trim_back(trim_front(s))
}

/// The first position at or after `j` holding a space, or the end.
pub open spec fn first_space(s: Seq<char>, j: int) -> int
    decreases s.len() - j,
{
    if j >= s.len() {
        s.len() as int
    } else if s[j] == ' ' {
        j
    } else {
        first_space(s, j + 1)
    }
}

/// Splits at the first space, if there is one; the space itself is dropped.
pub open spec fn split_space(s: Seq<char>) -> Option<(Seq<char>, Seq<char>)> {
    let j = first_space(s, 0);
    if j < s.len() {
        Some((s.subrange(0, j), s.subrange(j + 1, s.len() as int)))
    } else {
        None
    }
}

/// What a recognized command asks the lexer to do.
pub enum CmdActV {
    /// Emit this node.
    Push(TokenV),
    /// Bind a variable now, at lex time; no node is emitted.
    SetVar(Seq<char>, Seq<char>),
    /// Splice the referenced file's lexed nodes inline.
    Include(Seq<char>),
    /// Parse the referenced file as a sub-document and emit a wrap-include
    /// opening node owning it.
    Wrap(Seq<char>),
    /// Fail the lex.
    Fail(ErrV),
}

/// Dispatches a command name and its optional argument, as the grammar
/// fixes them: `else`, `end` and `wrapped-content` ignore any argument;
/// every other recognized command requires a non-empty one; an unknown
/// name fails the lex.
pub open spec fn command_act(cmd: Seq<char>, args: Option<Seq<char>>) -> CmdActV {
    if cmd == "else"@ {
        CmdActV::Push(TokenV::Else)
    } else if cmd == "end"@ {
        CmdActV::Push(TokenV::End)
    } else if cmd == "wrapped-content"@ {
        CmdActV::Push(TokenV::WrappedContent)
    } else {
        match args {
            None => CmdActV::Fail(
                ErrV::CommandArgumentInvalid { command: cmd, argument: Seq::empty() },
            ),
            Some(a) => {
                if a.len() == 0 {
                    CmdActV::Fail(ErrV::CommandArgumentInvalid { command: cmd, argument: a })
                } else if cmd == "set"@ {
                    match split_space(a) {
                        None => CmdActV::Fail(
                            ErrV::CommandArgumentInvalid { command: cmd, argument: a },
                        ),
                        Some((name, value)) => CmdActV::SetVar(name, value),
                    }
                } else if cmd == "if-set"@ {
                    CmdActV::Push(
                        TokenV::IfSet {
                            variable_name: a,
                            tokens: Seq::empty(),
                            else_tokens: None,
                        },
                    )
                } else if cmd == "pattern"@ {
                    CmdActV::Push(TokenV::Pattern { pattern_name: a, tokens: Seq::empty() })
                } else if cmd == "include"@ {
                    CmdActV::Include(a)
                } else if cmd == "wrap-include"@ {
                    CmdActV::Wrap(a)
                } else {
                    CmdActV::Fail(ErrV::UnknownCommand { command: cmd })
                }
            },
        }
    }
}

/// The action of a whole command placeholder: content after `%`, trimmed and
/// split on the first space into name and argument.
pub open spec fn command_act_of_inside(inside: Seq<char>) -> CmdActV {
    let trimmed = trim_spec(inside.drop_first());
    match split_space(trimmed) {
        Some((c, a)) => command_act(c, Some(a)),
        None => command_act(trimmed, None),
    }
}

/// What a missing file's read error says.
pub open spec fn read_missing_inner() -> Seq<char> {
    "no such file in the file set"@
}

/// One step of lexing from position `i` with pending literal text `cur`.
///
/// Mirrors the scanner: a backslash escapes a following `{` (and otherwise
/// passes through, backslash included; a trailing backslash is dropped); `{`
/// opens a placeholder, pushed back verbatim when no closing `}` follows its
/// content; everything else accumulates as literal text. `fuel` bounds how
/// deep include chains may nest.
pub open spec fn lex_rec(
    cs: Seq<char>,
    i: int,
    cur: Seq<char>,
    st: LexSt,
    ctx: LexCtx,
    fuel: nat,
) -> Result<LexSt, ErrV>
    decreases fuel, cs.len() - i + 1,
    via lex_rec_dec
{
    if i < 0 || i >= cs.len() {
        Ok(flush(cur, st))
    } else if cs[i] == '\\' {
        if i + 1 < cs.len() {
            if cs[i + 1] == '{' {
                lex_rec(cs, i + 2, cur.push('{'), st, ctx, fuel)
            } else {
                lex_rec(cs, i + 2, cur.push('\\').push(cs[i + 1]), st, ctx, fuel)
            }
        } else {
            lex_rec(cs, i + 1, cur, st, ctx, fuel)
        }
    } else if cs[i] == '{' {
        if i + 1 >= cs.len() {
            lex_rec(cs, i + 1, cur.push('{'), st, ctx, fuel)
        } else {
            let j = if cs[i + 1] == '%' {
                scan_cmd(cs, i + 1)
            } else {
                scan_var(cs, i + 1)
            };
            let inside = cs.subrange(i + 1, j);
            if j < cs.len() && cs[j] == '}' {
                lex_inside(cs, i, j, inside, flush(cur, st), ctx, fuel)
            } else {
                lex_rec(cs, j, cur.push('{') + inside, st, ctx, fuel)
            }
        }
    } else {
        lex_rec(cs, i + 1, cur.push(cs[i]), st, ctx, fuel)
    }
}

/// Handles the content of a valid placeholder ending at the `}` in
/// position `j`, then continues the scan after it with empty pending text.
pub open spec fn lex_inside(
    cs: Seq<char>,
    i: int,
    j: int,
    inside: Seq<char>,
    st: LexSt,
    ctx: LexCtx,
    fuel: nat,
) -> Result<LexSt, ErrV>
    decreases fuel, cs.len() - i,
    via lex_inside_dec
{
    if !(0 <= i < j < cs.len()) {
        Err(ErrV::UnclosedCommand)
    } else if inside.len() == 0 {
        lex_rec(
            cs,
            j + 1,
            Seq::empty(),
            LexSt { toks: st.toks.push(TokenV::Text("{}"@)), vars: st.vars },
            ctx,
            fuel,
        )
    } else if inside[0] == '%' {
        match command_act_of_inside(inside) {
            CmdActV::Push(t) => lex_rec(
                cs,
                j + 1,
                Seq::empty(),
                LexSt { toks: st.toks.push(t), vars: st.vars },
                ctx,
                fuel,
            ),
            CmdActV::SetVar(name, value) => lex_rec(
                cs,
                j + 1,
                Seq::empty(),
                LexSt { toks: st.toks, vars: st.vars.insert(name, value) },
                ctx,
                fuel,
            ),
            CmdActV::Include(rel) => match resolve_spec(
                ctx.options.include_method,
                ctx.tpath,
                rel,
            ) {
                Err(e) => Err(e),
                Ok(p) => {
                    if !ctx.files.contains_key(p) {
                        Err(ErrV::ReadError { file: p, inner: read_missing_inner() })
                    } else if fuel == 0 {
                        Err(ErrV::DepthExceeded)
                    } else {
                        match lex_rec(
                            ctx.files[p],
                            0,
                            Seq::empty(),
                            st,
                            LexCtx { options: ctx.options, tpath: Some(p), files: ctx.files },
                            (fuel - 1) as nat,
                        ) {
                            Ok(st2) => lex_rec(cs, j + 1, Seq::empty(), st2, ctx, fuel),
                            Err(e) => Err(e),
                        }
                    }
                },
            },
            CmdActV::Wrap(rel) => match resolve_spec(ctx.options.include_method, ctx.tpath, rel) {
                Err(e) => Err(e),
                Ok(p) => {
                    if !ctx.files.contains_key(p) {
                        Err(ErrV::ReadError { file: p, inner: read_missing_inner() })
                    } else if fuel == 0 {
                        Err(ErrV::DepthExceeded)
                    } else {
                        match parse_doc_spec(
                            ctx.files[p],
                            ctx.options,
                            Some(p),
                            ctx.files,
                            (fuel - 1) as nat,
                        ) {
                            Ok(d) => lex_rec(
                                cs,
                                j + 1,
                                Seq::empty(),
                                LexSt {
                                    toks: st.toks.push(
                                        TokenV::WrapInclude {
                                            document: d,
                                            tokens: Seq::empty(),
                                        },
                                    ),
                                    vars: st.vars,
                                },
                                ctx,
                                fuel,
                            ),
                            Err(e) => Err(e),
                        }
                    }
                },
            },
            CmdActV::Fail(e) => Err(e),
        }
    } else {
        lex_rec(
            cs,
            j + 1,
            Seq::empty(),
            LexSt { toks: st.toks.push(TokenV::Variable { name: inside }), vars: st.vars },
            ctx,
            fuel,
        )
    }
}

/// A full parse: lex from the start, then structure, giving a document with
/// the lexed variable bindings and an empty pattern-instance table.
pub open spec fn parse_doc_spec(
    text: Seq<char>,
    options: OptionsV,
    tpath: Option<Seq<char>>,
    files: Map<Seq<char>, Seq<char>>,
    fuel: nat,
) -> Result<DocumentV, ErrV>
    decreases fuel, text.len() + 2,
{
    match lex_rec(
        text,
        0,
        Seq::empty(),
        LexSt { toks: Seq::empty(), vars: Map::empty() },
        LexCtx { options, tpath, files },
        fuel,
    ) {
        Err(e) => Err(e),
        Ok(st) => match structure_spec(st.toks) {
            Err(e) => Err(e),
            Ok(toks) => Ok(
                DocumentV {
                    options,
                    template_path: tpath,
                    tokens: toks,
                    variables: st.vars,
                    patterns: Map::empty(),
                },
            ),
        },
    }
}

/// The parse of a document against a file set. Include chains may nest as
/// deep as the set has files: a deeper chain must revisit a file, which
/// means a file includes itself and the parse cannot end.
pub open spec fn parse_document(
    text: Seq<char>,
    options: OptionsV,
    tpath: Option<Seq<char>>,
    files: Map<Seq<char>, Seq<char>>,
) -> Result<DocumentV, ErrV> {
    parse_doc_spec(text, options, tpath, files, files.dom().len())
}

proof fn lemma_scan_cmd_eq(cs: Seq<char>, from: int, j: int)
    requires
        0 <= from <= j <= cs.len(),
        forall|k: int| from <= k < j ==> cs[k] != '}',
        j < cs.len() ==> cs[j] == '}',
    ensures
        scan_cmd(cs, from) == j,
    decreases j - from,
{
    if from < j {
        lemma_scan_cmd_eq(cs, from + 1, j);
    }
}

proof fn lemma_scan_var_eq(cs: Seq<char>, from: int, j: int)
    requires
        0 <= from <= j <= cs.len(),
        forall|k: int| from <= k < j ==> (cs[k] != '}' && !is_space_char(cs[k])),
        j < cs.len() ==> (cs[j] == '}' || is_space_char(cs[j])),
    ensures
        scan_var(cs, from) == j,
    decreases j - from,
{
    if from < j {
        lemma_scan_var_eq(cs, from + 1, j);
    }
}

proof fn lemma_first_space_eq(s: Seq<char>, from: int, j: int)
    requires
        0 <= from <= j <= s.len(),
        forall|k: int| from <= k < j ==> s[k] != ' ',
        j < s.len() ==> s[j] == ' ',
    ensures
        first_space(s, from) == j,
    decreases j - from,
{
    if from < j {
        lemma_first_space_eq(s, from + 1, j);
    }
}

proof fn lemma_trim_front_idx(s: Seq<char>, k: int)
    requires
        0 <= k <= s.len(),
        forall|j: int| 0 <= j < k ==> is_space_char(s[j]),
        k < s.len() ==> !is_space_char(s[k]),
    ensures
        trim_front(s) == s.subrange(k, s.len() as int),
    decreases k,
{
    if k == 0 {
        assert(trim_front(s) =~= s.subrange(0, s.len() as int));
    } else {
        lemma_trim_front_idx(s.drop_first(), k - 1);
        assert(trim_front(s) == trim_front(s.drop_first()));
        assert(s.drop_first().subrange(k - 1, s.drop_first().len() as int) =~= s.subrange(
            k,
            s.len() as int,
        ));
    }
}

proof fn lemma_trim_back_idx(s: Seq<char>, e: int)
    requires
        0 <= e <= s.len(),
        forall|j: int| e <= j < s.len() ==> is_space_char(s[j]),
        e > 0 ==> !is_space_char(s[e - 1]),
    ensures
        trim_back(s) == s.subrange(0, e),
    decreases s.len(),
{
    if s.len() > 0 && is_space_char(s.last()) {
        lemma_trim_back_idx(s.drop_last(), e);
        assert(s.drop_last().subrange(0, e) =~= s.subrange(0, e));
    } else {
        assert(e == s.len());
        assert(trim_back(s) =~= s.subrange(0, e));
    }
}

/// Finds `scan_cmd` of the characters.
fn scan_cmd_x(cs: &Vec<char>, from: usize) -> (r: usize)
    requires
        from <= cs@.len(),
    ensures
        r == scan_cmd(cs@, from as int),
        from <= r <= cs@.len(),
{
    let mut j = from;
    while j < cs.len() && cs[j] != '}'
        invariant
            from <= j <= cs@.len(),
            forall|k: int| from <= k < j ==> cs@[k] != '}',
        decreases cs@.len() - j,
    {
        j = j + 1;
    }
    proof {
        lemma_scan_cmd_eq(cs@, from as int, j as int);
    }
    j
}

/// Finds `scan_var` of the characters.
fn scan_var_x(cs: &Vec<char>, from: usize) -> (r: usize)
    requires
        from <= cs@.len(),
    ensures
        r == scan_var(cs@, from as int),
        from <= r <= cs@.len(),
{
    let mut j = from;
    while j < cs.len() && cs[j] != '}' && !crate::strutil::is_space(cs[j])
        invariant
            from <= j <= cs@.len(),
            forall|k: int| from <= k < j ==> (cs@[k] != '}' && !is_space_char(cs@[k])),
        decreases cs@.len() - j,
    {
        j = j + 1;
    }
    proof {
        lemma_scan_var_eq(cs@, from as int, j as int);
    }
    j
}

/// Computes `trim_spec` of the characters.
fn trim_chars(v: &Vec<char>) -> (r: Vec<char>)
    ensures
        r@ == trim_spec(v@),
{
    let mut k: usize = 0;
    while k < v.len() && crate::strutil::is_space(v[k])
        invariant
            k <= v@.len(),
            forall|j: int| 0 <= j < k ==> is_space_char(v@[j]),
        decreases v@.len() - k,
    {
        k = k + 1;
    }
    proof {
        lemma_trim_front_idx(v@, k as int);
    }
    if k == v.len() {
        let r: Vec<char> = Vec::new();
        proof {
            assert(trim_front(v@) =~= Seq::<char>::empty());
            assert(trim_back(Seq::<char>::empty()) =~= Seq::<char>::empty());
            assert(r@ =~= trim_spec(v@));
        }
        return r;
    }
    let mut e: usize = v.len();
    while e > k && crate::strutil::is_space(v[e - 1])
        invariant
            k <= e <= v@.len(),
            forall|j: int| e <= j < v@.len() ==> is_space_char(v@[j]),
        decreases e,
    {
        e = e - 1;
    }
    proof {
        assert(e > k) by {
            assert(!is_space_char(v@[k as int]));
        }
        let t1 = trim_front(v@);
        assert(t1 == v@.subrange(k as int, v@.len() as int));
        lemma_trim_back_idx(t1, e - k);
        assert(t1.subrange(0, e - k) =~= v@.subrange(k as int, e as int));
    }
    crate::strutil::copy_range(v, k, e)
}

/// Computes `split_space` of the characters.
fn split_space_x(v: &Vec<char>) -> (r: Option<(Vec<char>, Vec<char>)>)
    ensures
        match r {
            Some(p) => split_space(v@) == Some((p.0@, p.1@)),
            None => split_space(v@) is None,
        },
{
    let mut j: usize = 0;
    while j < v.len() && v[j] != ' '
        invariant
            j <= v@.len(),
            forall|k: int| 0 <= k < j ==> v@[k] != ' ',
        decreases v@.len() - j,
    {
        j = j + 1;
    }
    proof {
        lemma_first_space_eq(v@, 0, j as int);
    }
    if j < v.len() {
        let a = crate::strutil::copy_range(v, 0, j);
        let b = crate::strutil::copy_range(v, j + 1, v.len());
        Some((a, b))
    } else {
        None
    }
}

/// Mathematical image of an `Option<String>`.
pub open spec fn opt_str_view(o: Option<String>) -> Option<Seq<char>> {
    match o {
        Some(s) => Some(s@),
        None => None,
    }
}

/// The context a lex run works in, from its executable parts.
pub open(crate) spec fn ctx_of(options: Options, tpath: Option<String>, files: FileSet) -> LexCtx {
    LexCtx { options: options@, tpath: opt_str_view(tpath), files: files@ }
}

/// Executable counterpart of `CmdActV`.
pub(crate) enum CmdAct {
    Push(Token),
    SetVar(String, String),
    Include(Vec<char>),
    Wrap(Vec<char>),
    Fail(ParseError),
}

pub(crate) open(crate) spec fn cmd_act_view(a: CmdAct) -> CmdActV {
    match a {
        CmdAct::Push(t) => CmdActV::Push(token_view(t)),
        CmdAct::SetVar(n, v) => CmdActV::SetVar(n@, v@),
        CmdAct::Include(p) => CmdActV::Include(p@),
        CmdAct::Wrap(p) => CmdActV::Wrap(p@),
        CmdAct::Fail(e) => CmdActV::Fail(e@),
    }
}

pub open spec fn opt_chars_view(o: Option<Vec<char>>) -> Option<Seq<char>> {
    match o {
        Some(v) => Some(v@),
        None => None,
    }
}

/// Dispatches a command, as `command_act` describes it.
fn command_act_x(cmd: Vec<char>, args: Option<Vec<char>>) -> (r: CmdAct)
    ensures
        cmd_act_view(r) == command_act(cmd@, opt_chars_view(args)),
{
    if crate::strutil::chars_eq_str(&cmd, "else") {
        return CmdAct::Push(Token::Else);
    }
    if crate::strutil::chars_eq_str(&cmd, "end") {
        return CmdAct::Push(Token::End);
    }
    if crate::strutil::chars_eq_str(&cmd, "wrapped-content") {
        return CmdAct::Push(Token::WrappedContent);
    }
    match args {
        None => CmdAct::Fail(
            ParseError::CommandArgumentInvalid {
                command: crate::strutil::chars_to_string(&cmd),
                argument: String::new(),
            },
        ),
        Some(a) => {
            if a.len() == 0 {
                CmdAct::Fail(
                    ParseError::CommandArgumentInvalid {
                        command: crate::strutil::chars_to_string(&cmd),
                        argument: crate::strutil::chars_to_string(&a),
                    },
                )
            } else if crate::strutil::chars_eq_str(&cmd, "set") {
                match split_space_x(&a) {
                    None => CmdAct::Fail(
                        ParseError::CommandArgumentInvalid {
                            command: crate::strutil::chars_to_string(&cmd),
                            argument: crate::strutil::chars_to_string(&a),
                        },
                    ),
                    Some((name, value)) => CmdAct::SetVar(
                        crate::strutil::chars_to_string(&name),
                        crate::strutil::chars_to_string(&value),
                    ),
                }
            } else if crate::strutil::chars_eq_str(&cmd, "if-set") {
                let t = Token::IfSet {
                    variable_name: crate::strutil::chars_to_string(&a),
                    tokens: Vec::new(),
                    else_tokens: None,
                };
                proof {
                    assert(tokens_view(Seq::<Token>::empty()) =~= Seq::<TokenV>::empty());
                }
                CmdAct::Push(t)
            } else if crate::strutil::chars_eq_str(&cmd, "pattern") {
                let t = Token::Pattern {
                    pattern_name: crate::strutil::chars_to_string(&a),
                    tokens: Vec::new(),
                };
                proof {
                    assert(tokens_view(Seq::<Token>::empty()) =~= Seq::<TokenV>::empty());
                }
                CmdAct::Push(t)
            } else if crate::strutil::chars_eq_str(&cmd, "include") {
                CmdAct::Include(a)
            } else if crate::strutil::chars_eq_str(&cmd, "wrap-include") {
                CmdAct::Wrap(a)
            } else {
                CmdAct::Fail(
                    ParseError::UnknownCommand { command: crate::strutil::chars_to_string(&cmd) },
                )
            }
        },
    }
}

/// Resolves an include reference, as `resolve_spec` describes it.
fn resolve_x(method: &IncludeMethod, tpath: &Option<String>, rel: &Vec<char>) -> (r: Result<
    Vec<char>,
    ParseError,
>)
    ensures
        match r {
            Ok(p) => resolve_spec(method@, opt_str_view(*tpath), rel@) == Ok::<Seq<char>, ErrV>(
                p@,
            ),
            Err(e) => resolve_spec(method@, opt_str_view(*tpath), rel@) == Err::<Seq<char>, ErrV>(
                e@,
            ),
        },
{
    match method {
        IncludeMethod::CurrentDirectory => Ok(rel.clone()),
        IncludeMethod::Path(base) => {
            let bc = crate::strutil::str_to_chars(base.as_str());
            Ok(crate::path::join_chars(&bc, rel))
        },
        IncludeMethod::Template => match tpath {
            Some(t) => {
                let tc = crate::strutil::str_to_chars(t.as_str());
                let dir = crate::path::parent_dir_chars(&tc);
                Ok(crate::path::join_chars(&dir, rel))
            },
            None => Err(
                ParseError::UnresolvableInclude {
                    included_file: crate::strutil::chars_to_string(rel),
                    include_path: String::new(),
                    from_buffer_template: true,
                },
            ),
        },
    }
}

/// Lexes from position `i`, as `lex_rec` describes it: emitted nodes grow
/// `toks` and `set` commands grow `vars`.
pub(crate) fn lex_rec_x(
    cs: &Vec<char>,
    i: usize,
    cur: Vec<char>,
    toks: &mut Vec<Token>,
    vars: &mut VarMap,
    options: &Options,
    tpath: &Option<String>,
    files: &FileSet,
    fuel: usize,
) -> (r: Result<(), ParseError>)
    requires
        i <= cs@.len(),
        old(vars).wf(),
        files.wf(),
    ensures
        final(vars).wf(),
        match r {
            Ok(()) => lex_rec(
                cs@,
                i as int,
                cur@,
                LexSt { toks: tokens_view(old(toks)@), vars: old(vars)@ },
                ctx_of(*options, *tpath, *files),
                fuel as nat,
            ) == Ok::<LexSt, ErrV>(
                LexSt { toks: tokens_view(final(toks)@), vars: final(vars)@ },
            ),
            Err(e) => lex_rec(
                cs@,
                i as int,
                cur@,
                LexSt { toks: tokens_view(old(toks)@), vars: old(vars)@ },
                ctx_of(*options, *tpath, *files),
                fuel as nat,
            ) == Err::<LexSt, ErrV>(e@),
        },
    decreases fuel, cs@.len() - i + 1,
{
    let ghost st0 = LexSt { toks: tokens_view(toks@), vars: vars@ };
    if i >= cs.len() {
        if cur.len() > 0 {
            let ghost t0 = toks@;
            let s = crate::strutil::chars_to_string(&cur);
            let tok = Token::Text(s);
            proof {
                lemma_tokens_view_push(t0, tok);
            }
            toks.push(tok);
        }
        return Ok(());
    }
    let c = cs[i];
    if c == '\\' {
        let mut cur2 = cur;
        if i + 1 < cs.len() {
            let c2 = cs[i + 1];
            if c2 == '{' {
                cur2.push('{');
            } else {
                cur2.push('\\');
                cur2.push(c2);
            }
            return lex_rec_x(cs, i + 2, cur2, toks, vars, options, tpath, files, fuel);
        } else {
            return lex_rec_x(cs, i + 1, cur2, toks, vars, options, tpath, files, fuel);
        }
    }
    if c == '{' {
        if i + 1 >= cs.len() {
            let mut cur2 = cur;
            cur2.push('{');
            return lex_rec_x(cs, i + 1, cur2, toks, vars, options, tpath, files, fuel);
        }
        let j = if cs[i + 1] == '%' {
            scan_cmd_x(cs, i + 1)
        } else {
            scan_var_x(cs, i + 1)
        };
        let inside = crate::strutil::copy_range(cs, i + 1, j);
        if j < cs.len() && cs[j] == '}' {
            if cur.len() > 0 {
                let ghost t0 = toks@;
                let s = crate::strutil::chars_to_string(&cur);
                let tok = Token::Text(s);
                proof {
                    lemma_tokens_view_push(t0, tok);
                }
                toks.push(tok);
            }
            proof {
                assert(LexSt { toks: tokens_view(toks@), vars: vars@ } == flush(cur@, st0));
            }
            return lex_inside_x(cs, i, j, inside, toks, vars, options, tpath, files, fuel);
        } else {
            let mut cur2 = cur;
            cur2.push('{');
            crate::strutil::append_chars(&mut cur2, &inside);
            proof {
                assert(cur2@ =~= cur@.push('{') + inside@);
            }
            return lex_rec_x(cs, j, cur2, toks, vars, options, tpath, files, fuel);
        }
    }
    let mut cur2 = cur;
    cur2.push(c);
    lex_rec_x(cs, i + 1, cur2, toks, vars, options, tpath, files, fuel)
}

/// Handles a valid placeholder's content, as `lex_inside` describes it.
fn lex_inside_x(
    cs: &Vec<char>,
    i: usize,
    j: usize,
    inside: Vec<char>,
    toks: &mut Vec<Token>,
    vars: &mut VarMap,
    options: &Options,
    tpath: &Option<String>,
    files: &FileSet,
    fuel: usize,
) -> (r: Result<(), ParseError>)
    requires
        i < j < cs@.len(),
        old(vars).wf(),
        files.wf(),
    ensures
        final(vars).wf(),
        match r {
            Ok(()) => lex_inside(
                cs@,
                i as int,
                j as int,
                inside@,
                LexSt { toks: tokens_view(old(toks)@), vars: old(vars)@ },
                ctx_of(*options, *tpath, *files),
                fuel as nat,
            ) == Ok::<LexSt, ErrV>(
                LexSt { toks: tokens_view(final(toks)@), vars: final(vars)@ },
            ),
            Err(e) => lex_inside(
                cs@,
                i as int,
                j as int,
                inside@,
                LexSt { toks: tokens_view(old(toks)@), vars: old(vars)@ },
                ctx_of(*options, *tpath, *files),
                fuel as nat,
            ) == Err::<LexSt, ErrV>(e@),
        },
    decreases fuel, cs@.len() - i,
{
    let n = cs.len();
    proof {
        assert(j < n);
    }
    if inside.len() == 0 {
        let ghost t0 = toks@;
        let tok = Token::Text(String::from_str("{}"));
        proof {
            lemma_tokens_view_push(t0, tok);
        }
        toks.push(tok);
        return lex_rec_x(cs, j + 1, Vec::new(), toks, vars, options, tpath, files, fuel);
    }
    if inside[0] == '%' {
        let stripped = crate::strutil::copy_range(&inside, 1, inside.len());
        let trimmed = trim_chars(&stripped);
        proof {
            assert(stripped@ =~= inside@.drop_first());
        }
        let act = match split_space_x(&trimmed) {
            Some((c, a)) => command_act_x(c, Some(a)),
            None => command_act_x(trimmed, None),
        };
        proof {
            assert(cmd_act_view(act) == command_act_of_inside(inside@));
        }
        match act {
            CmdAct::Push(t) => {
                let ghost t0 = toks@;
                proof {
                    lemma_tokens_view_push(t0, t);
                }
                toks.push(t);
                lex_rec_x(cs, j + 1, Vec::new(), toks, vars, options, tpath, files, fuel)
            },
            CmdAct::SetVar(name, value) => {
                vars.insert(name, value);
                lex_rec_x(cs, j + 1, Vec::new(), toks, vars, options, tpath, files, fuel)
            },
            CmdAct::Include(rel) => {
                match resolve_x(&options.include_method, tpath, &rel) {
                    Err(e) => Err(e),
                    Ok(p) => {
                        let pstr = crate::strutil::chars_to_string(&p);
                        match files.get(pstr.as_str()) {
                            None => Err(
                                ParseError::ReadError {
                                    file: pstr,
                                    inner: String::from_str("no such file in the file set"),
                                },
                            ),
                            Some(content) => {
                                if fuel == 0 {
                                    Err(ParseError::DepthExceeded)
                                } else {
                                    let ccs = crate::strutil::str_to_chars(content.as_str());
                                    let sub_tpath = Some(pstr);
                                    match lex_rec_x(
                                        &ccs,
                                        0,
                                        Vec::new(),
                                        toks,
                                        vars,
                                        options,
                                        &sub_tpath,
                                        files,
                                        fuel - 1,
                                    ) {
                                        Err(e) => Err(e),
                                        Ok(()) => lex_rec_x(
                                            cs,
                                            j + 1,
                                            Vec::new(),
                                            toks,
                                            vars,
                                            options,
                                            tpath,
                                            files,
                                            fuel,
                                        ),
                                    }
                                }
                            },
                        }
                    },
                }
            },
            CmdAct::Wrap(rel) => {
                match resolve_x(&options.include_method, tpath, &rel) {
                    Err(e) => Err(e),
                    Ok(p) => {
                        let pstr = crate::strutil::chars_to_string(&p);
                        match files.get(pstr.as_str()) {
                            None => Err(
                                ParseError::ReadError {
                                    file: pstr,
                                    inner: String::from_str("no such file in the file set"),
                                },
                            ),
                            Some(content) => {
                                if fuel == 0 {
                                    Err(ParseError::DepthExceeded)
                                } else {
                                    match parse_doc_x(
                                        content.as_str(),
                                        options,
                                        Some(pstr),
                                        files,
                                        fuel - 1,
                                    ) {
                                        Err(e) => Err(e),
                                        Ok(d) => {
                                            let ghost t0 = toks@;
                                            let tok = Token::WrapInclude {
                                                document: d,
                                                tokens: Vec::new(),
                                            };
                                            proof {
                                                assert(tokens_view(Seq::<Token>::empty())
                                                    =~= Seq::<TokenV>::empty());
                                                lemma_tokens_view_push(t0, tok);
                                            }
                                            toks.push(tok);
                                            lex_rec_x(
                                                cs,
                                                j + 1,
                                                Vec::new(),
                                                toks,
                                                vars,
                                                options,
                                                tpath,
                                                files,
                                                fuel,
                                            )
                                        },
                                    }
                                }
                            },
                        }
                    },
                }
            },
            CmdAct::Fail(e) => Err(e),
        }
    } else {
        let ghost t0 = toks@;
        let name = crate::strutil::chars_to_string(&inside);
        let tok = Token::Variable { name };
        proof {
            lemma_tokens_view_push(t0, tok);
        }
        toks.push(tok);
        lex_rec_x(cs, j + 1, Vec::new(), toks, vars, options, tpath, files, fuel)
    }
}

/// Copies an optional owned string.
pub(crate) fn dup_opt_str(o: &Option<String>) -> (r: Option<String>)
    ensures
        opt_str_view(r) == opt_str_view(*o),
{
    match o {
        Some(s) => Some(s.clone()),
        None => None,
    }
}

/// Parses a whole document, as `parse_doc_spec` describes it: lex, then
/// structure, then assemble the document.
pub(crate) fn parse_doc_x(
    text: &str,
    options: &Options,
    tpath: Option<String>,
    files: &FileSet,
    fuel: usize,
) -> (r: Result<Document, ParseError>)
    requires
        files.wf(),
    ensures
        match r {
            Ok(d) => parse_doc_spec(text@, options@, opt_str_view(tpath), files@, fuel as nat)
                == Ok::<DocumentV, ErrV>(crate::node::doc_view(d)) && crate::node::doc_wf(d),
            Err(e) => parse_doc_spec(text@, options@, opt_str_view(tpath), files@, fuel as nat)
                == Err::<DocumentV, ErrV>(e@),
        },
    decreases fuel, text@.len() + 2,
{
    let cs = crate::strutil::str_to_chars(text);
    let mut toks: Vec<Token> = Vec::new();
    let mut vars = VarMap::new();
    proof {
        assert(tokens_view(Seq::<Token>::empty()) =~= Seq::<TokenV>::empty());
    }
    match lex_rec_x(&cs, 0, Vec::new(), &mut toks, &mut vars, options, &tpath, files, fuel) {
        Err(e) => Err(e),
        Ok(()) => {
            match crate::structure::structure_tokens(toks) {
                Err(e) => Err(e),
                Ok(out) => {
                    let d = Document {
                        options: options.dup(),
                        template_path: dup_opt_str(&tpath),
                        tokens: out,
                        variables: vars,
                        patterns: PatMap::new(),
                    };
                    Ok(d)
                },
            }
        },
    }
}

#[via_fn]
proof fn lex_rec_dec(cs: Seq<char>, i: int, cur: Seq<char>, st: LexSt, ctx: LexCtx, fuel: nat) {
    if 0 <= i && i + 1 <= cs.len() {
        lemma_scan_cmd(cs, i + 1);
        lemma_scan_var(cs, i + 1);
    }
}

#[via_fn]
proof fn lex_inside_dec(
    cs: Seq<char>,
    i: int,
    j: int,
    inside: Seq<char>,
    st: LexSt,
    ctx: LexCtx,
    fuel: nat,
) {
}

} // verus!
