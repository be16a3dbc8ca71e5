//! The public face of a template: parsing, binding, pattern extraction and
//! registration, and the final one-shot render.

use vstd::prelude::*;

use crate::err::ErrV;
use crate::err::ParseError;
use crate::lexer::dup_opt_str;
use crate::lexer::parse_doc_x;
use crate::lexer::parse_document;
use crate::lexer::read_missing_inner;
use crate::maps::FileSet;
use crate::maps::PatMap;
use crate::node::doc_view;
use crate::node::doc_wf;
use crate::node::pattern_wf;
use crate::node::token_view;
use crate::node::tokens_view;
use crate::node::Document;
use crate::node::DocumentV;
use crate::node::Pattern;
use crate::node::PatternV;
use crate::node::Token;
use crate::node::TokenV;
use crate::options::Options;
use crate::render::render_all;
use crate::render::render_doc;

verus! {

/// What parsing from a file of the set gives: the named file's content,
/// parsed with that file's path as the template path; a missing file is a
/// read error naming the path.
pub open spec fn parse_file(
    path: Seq<char>,
    options: crate::options::OptionsV,
    files: Map<Seq<char>, Seq<char>>,
) -> Result<DocumentV, ErrV> {
    if files.contains_key(path) {
        parse_document(files[path], options, Some(path), files)
    } else {
        Err(ErrV::ReadError { file: path, inner: read_missing_inner() })
    }
}

/// The body of the first top-level pattern node carrying the name, if any.
pub open spec fn find_pattern(toks: Seq<TokenV>, key: Seq<char>, i: int) -> Option<Seq<TokenV>>
    decreases toks.len() - i,
{
    if i < 0 || i >= toks.len() {
        None
    } else {
        match toks[i] {
            TokenV::Pattern { pattern_name, tokens } => {
                if pattern_name == key {
                    Some(tokens)
                } else {
                    find_pattern(toks, key, i + 1)
                }
            },
            _ => find_pattern(toks, key, i + 1),
        }
    }
}

impl Document {
    /// Parses an in-memory buffer. No file set is supplied, so every include
    /// the text attempts fails as an unresolvable or missing file.
    pub fn from_str(s: &str, options: Options) -> (r: Result<Document, ParseError>)
        ensures
            match r {
                Ok(d) => parse_document(s@, options@, None, Map::empty()) == Ok::<
                    DocumentV,
                    ErrV,
                >(d@) && doc_wf(d),
                Err(e) => parse_document(s@, options@, None, Map::empty()) == Err::<
                    DocumentV,
                    ErrV,
                >(e@),
            },
    {
        let files = FileSet::new();
        proof {
            assert(Map::<Seq<char>, Seq<char>>::empty().dom() =~= Set::<Seq<char>>::empty());
        }
        parse_doc_x(s, &options, None, &files, 0)
    }

    /// Parses an in-memory buffer against a file set that includes are looked
    /// up in.
    pub fn from_str_with(s: &str, options: Options, files: &FileSet) -> (r: Result<
        Document,
        ParseError,
    >)
        requires
            files.wf(),
        ensures
            match r {
                Ok(d) => parse_document(s@, options@, None, files@) == Ok::<DocumentV, ErrV>(d@)
                    && doc_wf(d),
                Err(e) => parse_document(s@, options@, None, files@) == Err::<DocumentV, ErrV>(
                    e@,
                ),
            },
    {
        let fuel = files.len();
        parse_doc_x(s, &options, None, files, fuel)
    }

    /// Parses the named file of the set, resolving includes against the same
    /// set. The file's path becomes the template path, so template-relative
    /// includes resolve beside it.
    pub fn from_file(path: &str, options: Options, files: &FileSet) -> (r: Result<
        Document,
        ParseError,
    >)
        requires
            files.wf(),
        ensures
            match r {
                Ok(d) => parse_file(path@, options@, files@) == Ok::<DocumentV, ErrV>(d@)
                    && doc_wf(d),
                Err(e) => parse_file(path@, options@, files@) == Err::<DocumentV, ErrV>(e@),
            },
    {
        match files.get(path) {
            None => Err(
                ParseError::ReadError {
                    file: String::from_str(path),
                    inner: String::from_str("no such file in the file set"),
                },
            ),
            Some(content) => {
                let fuel = files.len();
                parse_doc_x(content.as_str(), &options, Some(String::from_str(path)), files, fuel)
            },
        }
    }

    /// Binds the variable to the value, replacing any earlier binding.
    pub fn set(&mut self, key: &str, value: &str)
        requires
            doc_wf(*old(self)),
        ensures
            final(self)@ == (DocumentV {
                variables: old(self)@.variables.insert(key@, value@),
                ..old(self)@
            }),
            doc_wf(*final(self)),
    {
        self.variables.insert(String::from_str(key), String::from_str(value));
    }

    /// Clears every variable binding and every registered pattern instance,
    /// as if the document had just been parsed.
    pub fn clear_variables(&mut self)
        ensures
            final(self)@ == (DocumentV {
                variables: Map::empty(),
                patterns: Map::empty(),
                ..old(self)@
            }),
            doc_wf(*final(self)),
    {
        self.variables.clear();
        self.patterns.clear();
    }

    /// Extracts the first top-level pattern carrying the name, as a deep
    /// copy bundled with the current variable bindings and an empty
    /// pattern-instance table, for independent customization.
    pub fn get_pattern(&self, key: &str) -> (r: Option<Pattern>)
        requires
            doc_wf(*self),
        ensures
            match r {
                Some(p) => find_pattern(self@.tokens, key@, 0) == Some(p@.document.tokens)
                    && p@.name == key@ && p@.document == (DocumentV {
                    tokens: p@.document.tokens,
                    patterns: Map::empty(),
                    ..self@
                }) && pattern_wf(p),
                None => find_pattern(self@.tokens, key@, 0) is None,
            },
    {
        let ghost tv = tokens_view(self.tokens@);
        proof {
            crate::node::lemma_tokens_view_len(self.tokens@);
        }
        let mut i: usize = 0;
        while i < self.tokens.len()
            invariant
                i <= self.tokens@.len(),
                tv == tokens_view(self.tokens@),
                tv.len() == self.tokens@.len(),
                doc_wf(*self),
                find_pattern(tv, key@, 0) == find_pattern(tv, key@, i as int),
            decreases self.tokens@.len() - i,
        {
            proof {
                crate::node::lemma_tokens_view_index(self.tokens@, i as int);
            }
            match &self.tokens[i] {
                Token::Pattern { pattern_name, tokens } => {
                    if crate::strutil::str_eq(pattern_name.as_str(), key) {
                        let document = Document {
                            options: self.options.dup(),
                            template_path: dup_opt_str(&self.template_path),
                            tokens: copy_tokens(tokens),
                            variables: self.variables.dup(),
                            patterns: PatMap::new(),
                        };
                        return Some(Pattern { name: String::from_str(key), document });
                    }
                },
                _ => {},
            }
            i = i + 1;
        }
        None
    }

    /// Renders the pattern's document and registers the result under the
    /// pattern's name, after any instances already registered there.
    pub fn set_pattern(&mut self, pattern: Pattern)
        requires
            doc_wf(*old(self)),
            pattern_wf(pattern),
        ensures
            final(self)@ == (DocumentV {
                patterns: old(self)@.patterns.insert(
                    pattern@.name,
                    (if old(self)@.patterns.contains_key(pattern@.name) {
                        old(self)@.patterns[pattern@.name]
                    } else {
                        Seq::<Seq<char>>::empty()
                    }).push(render_doc(pattern@.document)),
                ),
                ..old(self)@
            }),
            doc_wf(*final(self)),
    {
        let Pattern { name, document } = pattern;
        let rendered = document.compile();
        self.patterns.append(name, rendered);
    }

    /// A deep copy of the document, so one parse can be bound and rendered
    /// several ways.
    pub fn duplicate(&self) -> (r: Self)
        ensures
            r@ == self@,
            doc_wf(r) == doc_wf(*self),
    {
        copy_doc(self)
    }

    /// Renders the document: a one-shot, terminal operation that consumes it.
    pub fn compile(self) -> (r: String)
        requires
            doc_wf(self),
        ensures
            r@ == render_doc(self@),
    {
        render_all(&self.tokens, &self.variables, &self.patterns)
    }
}

impl Pattern {
    /// Bundles a name with a document.
    pub fn new(name: String, document: Document) -> (r: Self)
        ensures
            r@ == (PatternV { name: name@, document: document@ }),
            pattern_wf(r) == doc_wf(document),
    {
        Self { name, document }
    }

    /// The name deciding which slot of the originating document the pattern
    /// is merged into.
    pub fn name(&self) -> (r: &str)
        ensures
            r@ == self@.name,
    {
        self.name.as_str()
    }

    /// Renames the pattern, redirecting which slot it is merged into.
    pub fn set_name(&mut self, name: String)
        ensures
            final(self)@ == (PatternV { name: name@, document: old(self)@.document }),
            pattern_wf(*final(self)) == pattern_wf(*old(self)),
    {
        self.name = name;
    }

    /// A deep copy of the pattern, for registering several differently
    /// bound instances of one extracted body.
    pub fn duplicate(&self) -> (r: Self)
        ensures
            r@ == self@,
            pattern_wf(r) == pattern_wf(*self),
    {
        Self { name: self.name.clone(), document: copy_doc(&self.document) }
    }
}

/// A deep copy of a node.
fn copy_token(t: &Token) -> (r: Token)
    ensures
        token_view(r) == token_view(*t),
    decreases *t, 0nat,
{
    match t {
        Token::Text(s) => Token::Text(s.clone()),
        Token::Variable { name } => Token::Variable { name: name.clone() },
        Token::IfSet { variable_name, tokens, else_tokens } => {
            let e = match else_tokens {
                Some(e) => Some(copy_tokens(e)),
                None => None,
            };
            Token::IfSet {
                variable_name: variable_name.clone(),
                tokens: copy_tokens(tokens),
                else_tokens: e,
            }
        },
        Token::Pattern { pattern_name, tokens } => Token::Pattern {
            pattern_name: pattern_name.clone(),
            tokens: copy_tokens(tokens),
        },
        Token::WrapInclude { document, tokens } => Token::WrapInclude {
            document: copy_doc(document),
            tokens: copy_tokens(tokens),
        },
        Token::WrappedContent => Token::WrappedContent,
        Token::Else => Token::Else,
        Token::End => Token::End,
    }
}

/// A deep copy of a node sequence.
fn copy_tokens(v: &Vec<Token>) -> (r: Vec<Token>)
    ensures
        tokens_view(r@) == tokens_view(v@),
    decreases v@, 0nat,
{
    let mut r: Vec<Token> = Vec::new();
    let mut i: usize = 0;
    proof {
        crate::node::lemma_tokens_view_len(v@);
    }
    while i < v.len()
        invariant
            i <= v@.len(),
            r@.len() == i,
            tokens_view(r@) == tokens_view(v@).subrange(0, i as int),
            tokens_view(v@).len() == v@.len(),
        decreases v@.len() - i,
    {
        proof {
            assert(decreases_to!(v@ => v@[i as int]));
            crate::node::lemma_tokens_view_index(v@, i as int);
            crate::node::lemma_tokens_view_len(r@);
        }
        let t = copy_token(&v[i]);
        proof {
            crate::node::lemma_tokens_view_push(r@, t);
        }
        r.push(t);
        i = i + 1;
        proof {
            assert(tokens_view(v@).subrange(0, i as int) =~= tokens_view(v@).subrange(
                0,
                i - 1,
            ).push(tokens_view(v@)[i - 1]));
        }
    }
    proof {
        assert(tokens_view(v@).subrange(0, v@.len() as int) =~= tokens_view(v@));
    }
    r
}

/// A deep copy of a document.
fn copy_doc(d: &Document) -> (r: Document)
    ensures
        doc_view(r) == doc_view(*d),
        doc_wf(r) == doc_wf(*d),
    decreases *d, 0nat,
{
    Document {
        options: d.options.dup(),
        template_path: dup_opt_str(&d.template_path),
        tokens: copy_tokens(&d.tokens),
        variables: d.variables.dup(),
        patterns: d.patterns.dup(),
    }
}

} // verus!
