//! The node tree, the document that owns it, and their mathematical views.

use vstd::prelude::*;

use crate::maps::PatMap;
use crate::maps::VarMap;
use crate::options::Options;
use crate::options::OptionsV;

verus! {

/// One node of a parsed template.
///
/// `Text`, `Variable` and the three composite variants survive structuring;
/// `WrappedContent`, `Else` and `End` are flat markers the lexer emits and the
/// structurer consumes.
#[derive(Debug, PartialEq)]
pub enum Token {
    Text(String),
    Variable { name: String },
    IfSet { variable_name: String, tokens: Vec<Token>, else_tokens: Option<Vec<Token>> },
    Pattern { pattern_name: String, tokens: Vec<Token> },
    WrapInclude { document: Document, tokens: Vec<Token> },
    WrappedContent,
    Else,
    End,
}

/// A parsed template: its top-level nodes, where it came from, the options it
/// was parsed under, and the variable and pattern-instance tables that drive
/// rendering.
#[derive(Debug, PartialEq)]
pub struct Document {
    pub(crate) options: Options,
    pub(crate) template_path: Option<String>,
    pub tokens: Vec<Token>,
    pub(crate) variables: VarMap,
    pub(crate) patterns: PatMap,
}

/// A named handle over a copied sub-document; the name decides which slot of
/// the originating document a rendered instance is merged into.
#[derive(Debug)]
pub struct Pattern {
    pub(crate) name: String,
    pub document: Document,
}

/// Mathematical image of `Token`.
pub enum TokenV {
    Text(Seq<char>),
    Variable { name: Seq<char> },
    IfSet { variable_name: Seq<char>, tokens: Seq<TokenV>, else_tokens: Option<Seq<TokenV>> },
    Pattern { pattern_name: Seq<char>, tokens: Seq<TokenV> },
    WrapInclude { document: DocumentV, tokens: Seq<TokenV> },
    WrappedContent,
    Else,
    End,
}

/// Mathematical image of `Document`.
pub struct DocumentV {
    pub options: OptionsV,
    pub template_path: Option<Seq<char>>,
    pub tokens: Seq<TokenV>,
    pub variables: Map<Seq<char>, Seq<char>>,
    pub patterns: Map<Seq<char>, Seq<Seq<char>>>,
}

/// Mathematical image of `Pattern`.
pub struct PatternV {
    pub name: Seq<char>,
    pub document: DocumentV,
}

pub open(crate) spec fn token_view(t: Token) -> TokenV
    decreases t,
{
    match t {
        Token::Text(s) => TokenV::Text(s@),
        Token::Variable { name } => TokenV::Variable { name: name@ },
        Token::IfSet { variable_name, tokens, else_tokens } => TokenV::IfSet {
            variable_name: variable_name@,
            tokens: tokens_view(tokens@),
            else_tokens: match else_tokens {
                Some(e) => Some(tokens_view(e@)),
                None => None,
            },
        },
        Token::Pattern { pattern_name, tokens } => TokenV::Pattern {
            pattern_name: pattern_name@,
            tokens: tokens_view(tokens@),
        },
        Token::WrapInclude { document, tokens } => TokenV::WrapInclude {
            document: doc_view(document),
            tokens: tokens_view(tokens@),
        },
        Token::WrappedContent => TokenV::WrappedContent,
        Token::Else => TokenV::Else,
        Token::End => TokenV::End,
    }
}

pub open(crate) spec fn tokens_view(ts: Seq<Token>) -> Seq<TokenV>
    decreases ts,
{
    if ts.len() == 0 {
        Seq::empty()
    } else {
        tokens_view(ts.drop_last()).push(token_view(ts.last()))
    }
}

pub open(crate) spec fn doc_view(d: Document) -> DocumentV
    decreases d,
{
    DocumentV {
        options: d.options@,
        template_path: match d.template_path {
            Some(p) => Some(p@),
            None => None,
        },
        tokens: tokens_view(d.tokens@),
        variables: d.variables@,
        patterns: d.patterns@,
    }
}

impl View for Token {
    type V = TokenV;

    open(crate) spec fn view(&self) -> TokenV {
        token_view(*self)
    }
}

impl View for Document {
    type V = DocumentV;

    open(crate) spec fn view(&self) -> DocumentV {
        doc_view(*self)
    }
}

impl View for Pattern {
    type V = PatternV;

    open(crate) spec fn view(&self) -> PatternV {
        PatternV { name: self.name@, document: doc_view(self.document) }
    }
}

/// The tables a document carries keep their keys unique.
pub open(crate) spec fn doc_wf(d: Document) -> bool {
    d.variables.wf() && d.patterns.wf()
}

/// The document a pattern wraps is well formed.
pub open(crate) spec fn pattern_wf(p: Pattern) -> bool {
    doc_wf(p.document)
}

impl TokenV {
    /// Whether the node opens a composite during structuring.
    pub open spec fn is_command_spec(self) -> bool {
        self is IfSet || self is Pattern || self is WrapInclude
    }
}

impl Token {
    /// Whether the node opens a composite during structuring: true exactly
    /// for the conditional, pattern, and wrap-include variants.
    pub fn is_command(&self) -> (r: bool)
        ensures
            r == self@.is_command_spec(),
    {
        match self {
            Token::Text(_) => false,
            Token::Variable { .. } => false,
            Token::IfSet { .. } => true,
            Token::Pattern { .. } => true,
            Token::WrapInclude { .. } => true,
            Token::WrappedContent => false,
            Token::Else => false,
            Token::End => false,
        }
    }
}

pub proof fn lemma_tokens_view_len(ts: Seq<Token>)
    ensures
        tokens_view(ts).len() == ts.len(),
    decreases ts,
{
    if ts.len() > 0 {
        lemma_tokens_view_len(ts.drop_last());
    }
}

pub proof fn lemma_tokens_view_index(ts: Seq<Token>, i: int)
    requires
        0 <= i < ts.len(),
    ensures
        tokens_view(ts).len() == ts.len(),
        tokens_view(ts)[i] == token_view(ts[i]),
    decreases ts,
{
    lemma_tokens_view_len(ts);
    if i == ts.len() - 1 {
    } else {
        lemma_tokens_view_index(ts.drop_last(), i);
    }
}

pub proof fn lemma_tokens_view_push(ts: Seq<Token>, t: Token)
    ensures
        tokens_view(ts.push(t)) == tokens_view(ts).push(token_view(t)),
{
    assert(ts.push(t).drop_last() =~= ts);
    assert(tokens_view(ts.push(t)) =~= tokens_view(ts).push(token_view(t)));
}

pub proof fn lemma_tokens_view_remove_first(ts: Seq<Token>)
    requires
        ts.len() > 0,
    ensures
        tokens_view(ts) == seq![token_view(ts[0])] + tokens_view(ts.drop_first()),
    decreases ts,
{
    if ts.len() == 1 {
        assert(ts.drop_last().len() == 0);
        assert(ts.drop_first().len() == 0);
        assert(ts.last() == ts[0]);
        assert(tokens_view(ts.drop_last()) =~= Seq::<TokenV>::empty());
        assert(tokens_view(ts.drop_first()) =~= Seq::<TokenV>::empty());
        assert(tokens_view(ts) == tokens_view(ts.drop_last()).push(token_view(ts.last())));
        assert(tokens_view(ts) =~= seq![token_view(ts[0])] + tokens_view(ts.drop_first()));
    } else {
        lemma_tokens_view_remove_first(ts.drop_last());
        assert(ts.drop_last()[0] == ts[0]);
        assert(ts.drop_first().drop_last() =~= ts.drop_last().drop_first());
        assert(ts.drop_first().last() == ts.last());
        assert(tokens_view(ts.drop_first()) == tokens_view(ts.drop_first().drop_last()).push(
            token_view(ts.drop_first().last()),
        ));
        assert(tokens_view(ts) =~= seq![token_view(ts[0])] + tokens_view(ts.drop_first()));
    }
}

} // verus!
