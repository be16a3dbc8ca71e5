//! A standalone element scanner for the older `{~ ... ~}` delimiter syntax:
//! text runs, `$name` variables with `!`/`?` requirement flags, `@include`
//! references, and named `@pattern ... @end-pattern` groups.

use vstd::prelude::*;

use crate::error::Error;
use crate::error::ErrorV;
use crate::strutil::chars_to_string;
use crate::strutil::copy_range;
use crate::strutil::str_to_chars;

verus! {

/// One element of a scanned document.
#[derive(Debug, PartialEq)]
pub enum Element {
    Text(String),
    Variable(String, bool),
    Include(String, bool),
    Pattern(String, Vec<Element>),
    PatternStart(String),
    PatternEnd,
}

/// Mathematical image of `Element`.
pub enum ElementV {
    Text(Seq<char>),
    Variable(Seq<char>, bool),
    Include(Seq<char>, bool),
    Pattern(Seq<char>, Seq<ElementV>),
    PatternStart(Seq<char>),
    PatternEnd,
}

pub open(crate) spec fn element_view(e: Element) -> ElementV
    decreases e,
{
    match e {
        Element::Text(s) => ElementV::Text(s@),
        Element::Variable(s, b) => ElementV::Variable(s@, b),
        Element::Include(s, b) => ElementV::Include(s@, b),
        Element::Pattern(s, v) => ElementV::Pattern(s@, elements_view(v@)),
        Element::PatternStart(s) => ElementV::PatternStart(s@),
        Element::PatternEnd => ElementV::PatternEnd,
    }
}

pub open(crate) spec fn elements_view(es: Seq<Element>) -> Seq<ElementV>
    decreases es,
{
    if es.len() == 0 {
        Seq::empty()
    } else {
        elements_view(es.drop_last()).push(element_view(es.last()))
    }
}

impl View for Element {
    type V = ElementV;

    open(crate) spec fn view(&self) -> ElementV {
        element_view(*self)
    }
}

pub proof fn lemma_elements_view_len(es: Seq<Element>)
    ensures
        elements_view(es).len() == es.len(),
    decreases es,
{
    if es.len() > 0 {
        lemma_elements_view_len(es.drop_last());
    }
}

pub proof fn lemma_elements_view_push(es: Seq<Element>, e: Element)
    ensures
        elements_view(es.push(e)) == elements_view(es).push(element_view(e)),
{
    assert(es.push(e).drop_last() =~= es);
    assert(elements_view(es.push(e)) =~= elements_view(es).push(element_view(e)));
}

pub proof fn lemma_elements_view_cons(es: Seq<Element>)
    requires
        es.len() > 0,
    ensures
        elements_view(es) == seq![element_view(es[0])] + elements_view(es.drop_first()),
    decreases es,
{
    if es.len() == 1 {
        assert(es.last() == es[0]);
        assert(elements_view(es.drop_last()) =~= Seq::<ElementV>::empty());
        assert(elements_view(es.drop_first()) =~= Seq::<ElementV>::empty());
        assert(elements_view(es) == elements_view(es.drop_last()).push(element_view(es.last())));
        assert(elements_view(es) =~= seq![element_view(es[0])] + elements_view(es.drop_first()));
    } else {
        lemma_elements_view_cons(es.drop_last());
        assert(es.drop_last()[0] == es[0]);
        assert(es.drop_first().drop_last() =~= es.drop_last().drop_first());
        assert(es.drop_first().last() == es.last());
        assert(elements_view(es.drop_first()) == elements_view(
            es.drop_first().drop_last(),
        ).push(element_view(es.drop_first().last())));
        assert(elements_view(es) =~= seq![element_view(es[0])] + elements_view(es.drop_first()));
    }
}

/// The first position at or after `from` where the pattern occurs.
pub open spec fn find_sub(s: Seq<char>, p: Seq<char>, from: int) -> Option<int>
    decreases s.len() - from + 1,
{
    if from < 0 || from + p.len() > s.len() {
        None
    } else if s.subrange(from, from + p.len()) == p {
        Some(from)
    } else {
        find_sub(s, p, from + 1)
    }
}

proof fn lemma_find_sub(s: Seq<char>, p: Seq<char>, from: int)
    requires
        0 <= from,
    ensures
        match find_sub(s, p, from) {
            Some(k) => from <= k && k + p.len() <= s.len() && s.subrange(k, k + p.len()) == p,
            None => true,
        },
    decreases s.len() - from + 1,
{
    if !(from + p.len() > s.len()) && s.subrange(from, from + p.len()) != p {
        lemma_find_sub(s, p, from + 1);
    }
}

/// The element opener and closer of this syntax.
pub open spec fn tilde_open() -> Seq<char> {
    "{~ "@
}

pub open spec fn tilde_close() -> Seq<char> {
    " ~}"@
}

/// The span of the next element: from the first opener through the closer
/// that follows it.
pub open spec fn find_next_element_spec(s: Seq<char>) -> Option<(int, int)> {
    match find_sub(s, tilde_open(), 0) {
        None => None,
        Some(st) => match find_sub(s, tilde_close(), st) {
            None => None,
            Some(e) => Some((st, e + 3)),
        },
    }
}

/// Parses a command after `@`: the three include forms, a pattern opener,
/// and the pattern closer.
pub open spec fn parse_command_spec(t: Seq<char>) -> Option<ElementV> {
    if t.len() >= 8 && t.subrange(0, 8) == "include "@ {
        Some(ElementV::Include(t.subrange(8, t.len() as int), true))
    } else if t.len() >= 9 && t.subrange(0, 9) == "include? "@ {
        Some(ElementV::Include(t.subrange(9, t.len() as int), false))
    } else if t.len() >= 9 && t.subrange(0, 9) == "include! "@ {
        Some(ElementV::Include(t.subrange(9, t.len() as int), true))
    } else if t.len() >= 8 && t.subrange(0, 8) == "pattern "@ {
        Some(ElementV::PatternStart(t.subrange(8, t.len() as int)))
    } else if t == "end-pattern"@ {
        Some(ElementV::PatternEnd)
    } else {
        None
    }
}

/// Parses one delimited span: `@` begins a command, `$` a variable whose
/// trailing `!` or `?` sets or clears its required flag; anything else is
/// not an element. A span too short to hold both delimiters is not an
/// element either.
pub open spec fn parse_element_spec(sub: Seq<char>) -> Option<ElementV> {
    if !(sub.len() >= 6 && sub.subrange(0, 3) == tilde_open() && sub.subrange(
        sub.len() - 3,
        sub.len() as int,
    ) == tilde_close()) {
        None
    } else {
        let mid = sub.subrange(3, sub.len() - 3);
        if mid.len() < 1 {
            None
        } else if mid[0] == '@' {
            parse_command_spec(mid.drop_first())
        } else if mid[0] == '$' {
            let var = mid.drop_first();
            if var.len() > 0 && var.last() == '!' {
                Some(ElementV::Variable(var.drop_last(), true))
            } else if var.len() > 0 && var.last() == '?' {
                Some(ElementV::Variable(var.drop_last(), false))
            } else {
                Some(ElementV::Variable(var, false))
            }
        } else {
            None
        }
    }
}

/// Folds the elements since the innermost `PatternStart` into one `Pattern`
/// element. A closer with no opener below it is dropped, leaving the
/// elements as they were.
pub open spec fn close_pattern(acc: Seq<ElementV>, tail: Seq<ElementV>) -> Seq<ElementV>
    decreases acc.len(),
{
    if acc.len() == 0 {
        tail
    } else {
        match acc.last() {
            ElementV::PatternStart(name) => acc.drop_last().push(ElementV::Pattern(name, tail)),
            _ => close_pattern(acc.drop_last(), seq![acc.last()] + tail),
        }
    }
}

/// Scans the remaining text, element by element. Text before an element
/// passes through as a text run; text holding no further element becomes one
/// final text run; a span that is not a valid element ends the scan, with
/// everything up to and including it kept as text.
pub open spec fn parse_elems_rec(s: Seq<char>, acc: Seq<ElementV>) -> Seq<ElementV>
    decreases s.len(),
    via parse_elems_rec_dec
{
    if s.len() == 0 {
        acc
    } else {
        match find_next_element_spec(s) {
            None => acc.push(ElementV::Text(s)),
            Some((st, en)) => match parse_element_spec(s.subrange(st, en)) {
                None => {
                    if s.subrange(0, en).len() > 0 {
                        acc.push(ElementV::Text(s.subrange(0, en)))
                    } else {
                        acc
                    }
                },
                Some(el) => {
                    let acc2 = if s.subrange(0, st).len() > 0 {
                        acc.push(ElementV::Text(s.subrange(0, st)))
                    } else {
                        acc
                    };
                    let acc3 = if el is PatternEnd {
                        close_pattern(acc2, Seq::empty())
                    } else {
                        acc2.push(el)
                    };
                    parse_elems_rec(s.subrange(en, s.len() as int), acc3)
                },
            },
        }
    }
}

#[via_fn]
proof fn parse_elems_rec_dec(s: Seq<char>, acc: Seq<ElementV>) {
    reveal_strlit("{~ ");
    reveal_strlit(" ~}");
    lemma_find_sub(s, tilde_open(), 0);
    match find_sub(s, tilde_open(), 0) {
        Some(st) => {
            lemma_find_sub(s, tilde_close(), st);
        },
        None => {},
    }
}

/// What scanning a whole text yields.
pub open spec fn parse_elements_spec(s: Seq<char>) -> Seq<ElementV> {
    parse_elems_rec(s, Seq::empty())
}

/// What `Element::string` yields: literal text passes through, a variable or
/// include still marked required is an error naming it, and everything else
/// is empty text.
pub open spec fn string_spec(e: ElementV) -> Result<Seq<char>, ErrorV> {
    match e {
        ElementV::Text(t) => Ok(t),
        ElementV::Variable(name, true) => Err(
            ErrorV::UnusedRequire("Required variable with name "@ + name),
        ),
        ElementV::Include(path, true) => Err(
            ErrorV::UnusedRequire("Required @include with path "@ + path),
        ),
        _ => Ok(Seq::empty()),
    }
}

/// Whether the characters at `at` are exactly `p`.
#[verifier::loop_isolation(false)]
fn range_eq(s: &Vec<char>, at: usize, p: &Vec<char>) -> (r: bool)
    requires
        at + p@.len() <= s@.len(),
    ensures
        r == (s@.subrange(at as int, at + p@.len()) == p@),
{
    let n = s.len();
    let m = p.len();
    let mut i: usize = 0;
    while i < p.len()
        invariant
            i <= p@.len(),
            at + p@.len() <= s@.len(),
            forall|j: int| 0 <= j < i ==> s@[at + j] == p@[j],
        decreases p@.len() - i,
    {
        if s[at + i] != p[i] {
            proof {
                assert(s@.subrange(at as int, at + p@.len())[i as int] != p@[i as int]);
            }
            return false;
        }
        i = i + 1;
    }
    proof {
        assert(s@.subrange(at as int, at + p@.len()) =~= p@);
    }
    true
}

/// Finds `find_sub` of the characters.
#[verifier::loop_isolation(false)]
fn find_sub_x(s: &Vec<char>, p: &Vec<char>, from: usize) -> (r: Option<usize>)
    requires
        from <= s@.len(),
        p@.len() > 0,
    ensures
        match r {
            Some(k) => find_sub(s@, p@, from as int) == Some(k as int) && from <= k && k + p@.len()
                <= s@.len(),
            None => find_sub(s@, p@, from as int) is None,
        },
{
    if p.len() > s.len() {
        return None;
    }
    let limit = s.len() - p.len();
    let mut i = from;
    while i <= limit
        invariant
            from <= i,
            i <= s@.len(),
            limit == s@.len() - p@.len(),
            find_sub(s@, p@, from as int) == find_sub(s@, p@, i as int),
        decreases s@.len() - i,
    {
        if range_eq(s, i, p) {
            return Some(i);
        }
        i = i + 1;
    }
    None
}

impl Element {
    /// Scans a text into its elements, as `parse_elements_spec` describes it.
    #[verifier::loop_isolation(false)]
    pub fn parse_elements(text: &str) -> (r: Vec<Element>)
        ensures
            elements_view(r@) == parse_elements_spec(text@),
    {
        let opener = str_to_chars("{~ ");
        let closer = str_to_chars(" ~}");
        proof {
            reveal_strlit("{~ ");
            reveal_strlit(" ~}");
        }
        let mut rem = str_to_chars(text);
        let mut acc: Vec<Element> = Vec::new();
        let ghost target = parse_elements_spec(text@);
        proof {
            assert(elements_view(Seq::<Element>::empty()) =~= Seq::<ElementV>::empty());
        }
        loop
            invariant
                opener@ == tilde_open(),
                closer@ == tilde_close(),
                target == parse_elems_rec(rem@, elements_view(acc@)),
            decreases rem@.len(),
        {
            if rem.len() == 0 {
                return acc;
            }
            let st = match find_sub_x(&rem, &opener, 0) {
                None => {
                    let ghost a0 = acc@;
                    let t = Element::Text(chars_to_string(&rem));
                    proof {
                        lemma_elements_view_push(a0, t);
                    }
                    acc.push(t);
                    return acc;
                },
                Some(st) => st,
            };
            let en = match find_sub_x(&rem, &closer, st) {
                None => {
                    let ghost a0 = acc@;
                    let t = Element::Text(chars_to_string(&rem));
                    proof {
                        lemma_elements_view_push(a0, t);
                    }
                    acc.push(t);
                    return acc;
                },
                Some(e) => e + 3,
            };
            let sub = copy_range(&rem, st, en);
            match parse_element_x(&sub) {
                None => {
                    let head = copy_range(&rem, 0, en);
                    if head.len() > 0 {
                        let ghost a0 = acc@;
                        let t = Element::Text(chars_to_string(&head));
                        proof {
                            lemma_elements_view_push(a0, t);
                        }
                        acc.push(t);
                    }
                    return acc;
                },
                Some(el) => {
                    if st > 0 {
                        let pre = copy_range(&rem, 0, st);
                        let ghost a0 = acc@;
                        let t = Element::Text(chars_to_string(&pre));
                        proof {
                            lemma_elements_view_push(a0, t);
                        }
                        acc.push(t);
                    }
                    let is_end = match &el {
                        Element::PatternEnd => true,
                        _ => false,
                    };
                    if is_end {
                        acc = close_pattern_x(acc, Vec::new());
                        proof {
                            assert(elements_view(Seq::<Element>::empty())
                                =~= Seq::<ElementV>::empty());
                        }
                    } else {
                        let ghost a0 = acc@;
                        proof {
                            lemma_elements_view_push(a0, el);
                        }
                        acc.push(el);
                    }
                    let next = copy_range(&rem, en, rem.len());
                    rem = next;
                },
            }
        }
    }

    /// The plain text of one element, as `string_spec` describes it.
    pub fn string(self) -> (r: Result<String, Error>)
        ensures
            match r {
                Ok(s) => string_spec(self@) == Ok::<Seq<char>, ErrorV>(s@),
                Err(e) => string_spec(self@) == Err::<Seq<char>, ErrorV>(e@),
            },
    {
        match self {
            Element::Text(text) => Ok(text),
            Element::Variable(name, true) => Err(
                Error::UnusedRequire(
                    String::from_str("Required variable with name ").concat(name.as_str()),
                ),
            ),
            Element::Include(path, true) => Err(
                Error::UnusedRequire(
                    String::from_str("Required @include with path ").concat(path.as_str()),
                ),
            ),
            _ => Ok(String::new()),
        }
    }
}

/// Folds elements into a pattern, as `close_pattern` describes it.
#[verifier::loop_isolation(false)]
fn close_pattern_x(acc: Vec<Element>, tail: Vec<Element>) -> (r: Vec<Element>)
    ensures
        elements_view(r@) == close_pattern(elements_view(acc@), elements_view(tail@)),
{
    let mut acc = acc;
    let mut tail = tail;
    let ghost target = close_pattern(elements_view(acc@), elements_view(tail@));
    loop
        invariant
            target == close_pattern(elements_view(acc@), elements_view(tail@)),
        decreases acc@.len(),
    {
        proof {
            lemma_elements_view_len(acc@);
        }
        if acc.len() == 0 {
            return tail;
        }
        let ghost a0 = acc@;
        let last = acc.pop().unwrap();
        proof {
            assert(a0.drop_last() =~= acc@);
            assert(elements_view(a0) == elements_view(acc@).push(element_view(last)));
            assert(elements_view(a0).last() == element_view(last));
            assert(elements_view(a0).drop_last() =~= elements_view(acc@));
        }
        match last {
            Element::PatternStart(name) => {
                let ghost a1 = acc@;
                let pat = Element::Pattern(name, tail);
                proof {
                    lemma_elements_view_push(a1, pat);
                }
                acc.push(pat);
                return acc;
            },
            other => {
                let ghost t0 = tail@;
                let ghost oth = other;
                tail.insert(0, other);
                proof {
                    assert(tail@ =~= seq![oth] + t0);
                    assert(tail@[0] == oth);
                    assert(tail@.drop_first() =~= t0);
                    lemma_elements_view_cons(tail@);
                    assert(elements_view(tail@) =~= seq![element_view(oth)] + elements_view(t0));
                }
            },
        }
    }
}

/// Parses one delimited span, as `parse_element_spec` describes it.
fn parse_element_x(sub: &Vec<char>) -> (r: Option<Element>)
    ensures
        match r {
            Some(e) => parse_element_spec(sub@) == Some(element_view(e)),
            None => parse_element_spec(sub@) is None,
        },
{
    let opener = str_to_chars("{~ ");
    let closer = str_to_chars(" ~}");
    proof {
        reveal_strlit("{~ ");
        reveal_strlit(" ~}");
    }
    if sub.len() < 6 {
        return None;
    }
    if !range_eq(sub, 0, &opener) {
        return None;
    }
    if !range_eq(sub, sub.len() - 3, &closer) {
        return None;
    }
    let mid = copy_range(sub, 3, sub.len() - 3);
    if mid.len() < 1 {
        return None;
    }
    let c0 = mid[0];
    if c0 == '@' {
        let t = copy_range(&mid, 1, mid.len());
        proof {
            assert(t@ =~= mid@.drop_first());
        }
        parse_command_x(&t)
    } else if c0 == '$' {
        let var = copy_range(&mid, 1, mid.len());
        proof {
            assert(var@ =~= mid@.drop_first());
        }
        if var.len() > 0 && var[var.len() - 1] == '!' {
            let name = copy_range(&var, 0, var.len() - 1);
            proof {
                assert(name@ =~= var@.drop_last());
            }
            Some(Element::Variable(chars_to_string(&name), true))
        } else if var.len() > 0 && var[var.len() - 1] == '?' {
            let name = copy_range(&var, 0, var.len() - 1);
            proof {
                assert(name@ =~= var@.drop_last());
            }
            Some(Element::Variable(chars_to_string(&name), false))
        } else {
            Some(Element::Variable(chars_to_string(&var), false))
        }
    } else {
        None
    }
}

/// Parses a command after `@`, as `parse_command_spec` describes it.
fn parse_command_x(t: &Vec<char>) -> (r: Option<Element>)
    ensures
        match r {
            Some(e) => parse_command_spec(t@) == Some(element_view(e)),
            None => parse_command_spec(t@) is None,
        },
{
    let p_inc = str_to_chars("include ");
    let p_inc_opt = str_to_chars("include? ");
    let p_inc_req = str_to_chars("include! ");
    let p_pat = str_to_chars("pattern ");
    proof {
        reveal_strlit("include ");
        reveal_strlit("include? ");
        reveal_strlit("include! ");
        reveal_strlit("pattern ");
    }
    if t.len() >= 8 && range_eq(t, 0, &p_inc) {
        let rest = copy_range(t, 8, t.len());
        Some(Element::Include(chars_to_string(&rest), true))
    } else if t.len() >= 9 && range_eq(t, 0, &p_inc_opt) {
        let rest = copy_range(t, 9, t.len());
        Some(Element::Include(chars_to_string(&rest), false))
    } else if t.len() >= 9 && range_eq(t, 0, &p_inc_req) {
        let rest = copy_range(t, 9, t.len());
        Some(Element::Include(chars_to_string(&rest), true))
    } else if t.len() >= 8 && range_eq(t, 0, &p_pat) {
        let rest = copy_range(t, 8, t.len());
        Some(Element::PatternStart(chars_to_string(&rest)))
    } else if crate::strutil::chars_eq_str(t, "end-pattern") {
        Some(Element::PatternEnd)
    } else {
        None
    }
}

} // verus!
