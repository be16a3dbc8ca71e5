//! Pure path arithmetic used to resolve include references.
//!
//! Paths are plain character strings here; the file set is keyed by exactly
//! these joined paths, so no file system is consulted.

use vstd::prelude::*;

use crate::err::ErrV;
use crate::options::MethodV;

verus! {

/// The directory part of a path: everything before the last `/`. A bare file
/// name yields the empty path; a path ending in `/` loses only that slash; a
/// lone `/` stays itself.
pub open spec fn parent_dir(p: Seq<char>) -> Seq<char>
    decreases p.len(),
{
    if p.len() == 0 {
        p
    } else if p.last() == '/' {
        if p.len() == 1 {
            p
        } else {
            p.drop_last()
        }
    } else {
        parent_dir(p.drop_last())
    }
}

/// Appends a relative path under a base directory. An absolute reference
/// replaces the base; an empty base leaves the reference as written.
pub open spec fn join_path(base: Seq<char>, rel: Seq<char>) -> Seq<char> {
    if rel.len() > 0 && rel[0] == '/' {
        rel
    } else if base.len() == 0 {
        rel
    } else if base.last() == '/' {
        base + rel
    } else {
        base + seq!['/'] + rel
    }
}

/// Where an include reference points, under the given method: as written for
/// the working-directory method, under the configured base for the fixed-path
/// method, and beside the template file for the template method — which has
/// no answer when the document came from an in-memory buffer.
pub open spec fn resolve_spec(
    method: MethodV,
    tpath: Option<Seq<char>>,
    rel: Seq<char>,
) -> Result<Seq<char>, ErrV> {
    match method {
        MethodV::CurrentDirectory => Ok(rel),
        MethodV::Path(base) => Ok(join_path(base, rel)),
        MethodV::Template => match tpath {
            Some(t) => Ok(join_path(parent_dir(t), rel)),
            None => Err(ErrV::UnresolvableInclude {
                included_file: rel,
                include_path: Seq::empty(),
                from_buffer_template: true,
            }),
        },
    }
}

/// Computes `parent_dir` of the given characters.
pub fn parent_dir_chars(p: &Vec<char>) -> (r: Vec<char>)
    ensures
        r@ == parent_dir(p@),
{
    let mut r: Vec<char> = p.clone();
    loop
        invariant
            parent_dir(r@) == parent_dir(p@),
        decreases r@.len(),
    {
        if r.len() == 0 {
            return r;
        }
        let c = r[r.len() - 1];
        if c == '/' {
            if r.len() == 1 {
                return r;
            }
            let _ = r.pop();
            return r;
        }
        let _ = r.pop();
    }
}

/// Computes `join_path` of the given characters.
pub fn join_chars(base: &Vec<char>, rel: &Vec<char>) -> (r: Vec<char>)
    ensures
        r@ == join_path(base@, rel@),
{
    if rel.len() > 0 && rel[0] == '/' {
        let r = rel.clone();
        proof {
            assert(r@ =~= join_path(base@, rel@));
        }
        return r;
    }
    if base.len() == 0 {
        let r = rel.clone();
        proof {
            assert(r@ =~= join_path(base@, rel@));
        }
        return r;
    }
    let mut r = base.clone();
    if base[base.len() - 1] != '/' {
        r.push('/');
    }
    let mut i: usize = 0;
    let ghost mid = r@;
    while i < rel.len()
        invariant
            i <= rel@.len(),
            r@ == mid + rel@.subrange(0, i as int),
        decreases rel@.len() - i,
    {
        r.push(rel[i]);
        i = i + 1;
        proof {
            assert(mid + rel@.subrange(0, i as int) =~= (mid + rel@.subrange(0, i - 1)).push(
                rel@[i - 1],
            ));
        }
    }
    proof {
        assert(rel@.subrange(0, rel@.len() as int) =~= rel@);
        assert(mid + rel@ =~= join_path(base@, rel@));
    }
    r
}

} // verus!
