//! Small string-keyed tables backed by vectors of pairs, with `Map` views.
//!
//! Keys are kept unique, so each table's view is the map that binds every
//! stored key to its stored value.

use vstd::prelude::*;

verus! {

/// The map described by an association list, later entries overriding earlier.
pub open spec fn assoc_map(s: Seq<(String, String)>) -> Map<Seq<char>, Seq<char>>
    decreases s.len(),
{
    if s.len() == 0 {
        Map::empty()
    } else {
        assoc_map(s.drop_last()).insert(s.last().0@, s.last().1@)
    }
}

/// No two entries share a key.
pub open spec fn unique_keys(s: Seq<(String, String)>) -> bool {
    forall|i: int, j: int| 0 <= i < j < s.len() ==> s[i].0@ != s[j].0@
}

pub proof fn lemma_assoc_absent(s: Seq<(String, String)>, k: Seq<char>)
    requires
        forall|i: int| 0 <= i < s.len() ==> s[i].0@ != k,
    ensures
        !assoc_map(s).contains_key(k),
    decreases s.len(),
{
    if s.len() > 0 {
        lemma_assoc_absent(s.drop_last(), k);
    }
}

pub proof fn lemma_assoc_present(s: Seq<(String, String)>, i: int)
    requires
        unique_keys(s),
        0 <= i < s.len(),
    ensures
        assoc_map(s).contains_key(s[i].0@),
        assoc_map(s)[s[i].0@] == s[i].1@,
    decreases s.len(),
{
    if i == s.len() - 1 {
        assert(forall|j: int|
            0 <= j < s.drop_last().len() ==> #[trigger] s.drop_last()[j].0@ != s[i].0@);
    } else {
        lemma_assoc_present(s.drop_last(), i);
        assert(s.drop_last()[i] == s[i]);
    }
}

pub proof fn lemma_assoc_dom_finite(s: Seq<(String, String)>)
    ensures
        assoc_map(s).dom().finite(),
        assoc_map(s).dom().len() <= s.len(),
    decreases s.len(),
{
    if s.len() > 0 {
        lemma_assoc_dom_finite(s.drop_last());
    }
}

pub proof fn lemma_assoc_dom_len(s: Seq<(String, String)>)
    requires
        unique_keys(s),
    ensures
        assoc_map(s).dom().finite(),
        assoc_map(s).dom().len() == s.len(),
    decreases s.len(),
{
    lemma_assoc_dom_finite(s);
    if s.len() > 0 {
        lemma_assoc_dom_len(s.drop_last());
        lemma_assoc_absent(s.drop_last(), s.last().0@);
    }
}

/// A variable table: names bound to replacement text.
#[derive(Clone, Debug, PartialEq)]
pub struct VarMap {
    entries: Vec<(String, String)>,
}

impl View for VarMap {
    type V = Map<Seq<char>, Seq<char>>;

    closed spec fn view(&self) -> Map<Seq<char>, Seq<char>> {
        assoc_map(self.entries@)
    }
}

impl VarMap {
    /// The table keeps its keys unique.
    pub closed spec fn wf(&self) -> bool {
        unique_keys(self.entries@)
    }

    pub fn new() -> (r: Self)
        ensures
            r@ == Map::<Seq<char>, Seq<char>>::empty(),
            r.wf(),
    {
        Self { entries: Vec::new() }
    }

    pub fn get(&self, key: &str) -> (r: Option<&String>)
        requires
            self.wf(),
        ensures
            match r {
                Some(v) => self@.contains_key(key@) && v@ == self@[key@],
                None => !self@.contains_key(key@),
            },
    {
        let mut i: usize = 0;
        while i < self.entries.len()
            invariant
                self.wf(),
                i <= self.entries@.len(),
                forall|j: int| 0 <= j < i ==> self.entries@[j].0@ != key@,
            decreases self.entries@.len() - i,
        {
            if crate::strutil::str_eq(self.entries[i].0.as_str(), key) {
                proof {
                    lemma_assoc_present(self.entries@, i as int);
                }
                return Some(&self.entries[i].1);
            }
            i = i + 1;
        }
        proof {
            lemma_assoc_absent(self.entries@, key@);
        }
        None
    }

    fn find_idx(&self, key: &str) -> (r: Option<usize>)
        ensures
            match r {
                Some(i) => i < self.entries@.len() && self.entries@[i as int].0@ == key@,
                None => forall|j: int| 0 <= j < self.entries@.len() ==> self.entries@[j].0@ != key@,
            },
    {
        let mut i: usize = 0;
        while i < self.entries.len()
            invariant
                i <= self.entries@.len(),
                forall|j: int| 0 <= j < i ==> self.entries@[j].0@ != key@,
            decreases self.entries@.len() - i,
        {
            if crate::strutil::str_eq(self.entries[i].0.as_str(), key) {
                return Some(i);
            }
            i = i + 1;
        }
        None
    }

    pub fn insert(&mut self, key: String, value: String)
        requires
            old(self).wf(),
        ensures
            final(self)@ == old(self)@.insert(key@, value@),
            final(self).wf(),
    {
        let ghost s0 = self.entries@;
        match self.find_idx(key.as_str()) {
            Some(i) => {
                self.entries.remove(i);
                proof {
                    lemma_assoc_remove(s0, i as int);
                }
            },
            None => {
                proof {
                    lemma_assoc_absent(s0, key@);
                    assert(assoc_map(s0).remove(key@) =~= assoc_map(s0));
                }
            },
        }
        let ghost s1 = self.entries@;
        proof {
            assert(assoc_map(s1) =~= assoc_map(s0).remove(key@));
            assert(forall|j: int| 0 <= j < s1.len() ==> #[trigger] s1[j].0@ != key@);
        }
        self.entries.push((key, value));
        proof {
            assert(self.entries@.drop_last() =~= s1);
            assert(assoc_map(self.entries@) =~= assoc_map(s0).insert(key@, value@));
        }
    }

    pub fn clear(&mut self)
        ensures
            final(self)@ == Map::<Seq<char>, Seq<char>>::empty(),
            final(self).wf(),
    {
        self.entries = Vec::new();
    }

    /// An exact copy of the table.
    pub fn dup(&self) -> (r: Self)
        ensures
            r@ == self@,
            r.wf() == self.wf(),
    {
        let mut entries: Vec<(String, String)> = Vec::new();
        let mut i: usize = 0;
        while i < self.entries.len()
            invariant
                i <= self.entries@.len(),
                entries@.len() == i,
                forall|j: int| 0 <= j < i ==> entries@[j] == self.entries@[j],
            decreases self.entries@.len() - i,
        {
            entries.push((self.entries[i].0.clone(), self.entries[i].1.clone()));
            i = i + 1;
        }
        proof {
            assert(entries@ =~= self.entries@);
        }
        Self { entries }
    }

    /// How many bindings the table holds.
    pub fn len(&self) -> (r: usize)
        requires
            self.wf(),
        ensures
            r == self@.dom().len(),
            self@.dom().finite(),
    {
        proof {
            lemma_assoc_dom_len(self.entries@);
        }
        self.entries.len()
    }
}

/// A set of file contents keyed by path, standing in for a file system: the
/// parser looks included files up here instead of reading a disk.
#[derive(Clone, Debug, PartialEq)]
pub struct FileSet {
    inner: VarMap,
}

impl View for FileSet {
    type V = Map<Seq<char>, Seq<char>>;

    closed spec fn view(&self) -> Map<Seq<char>, Seq<char>> {
        self.inner@
    }
}

impl FileSet {
    pub closed spec fn wf(&self) -> bool {
        self.inner.wf()
    }

    pub fn new() -> (r: Self)
        ensures
            r@ == Map::<Seq<char>, Seq<char>>::empty(),
            r.wf(),
    {
        Self { inner: VarMap::new() }
    }

    pub fn get(&self, path: &str) -> (r: Option<&String>)
        requires
            self.wf(),
        ensures
            match r {
                Some(v) => self@.contains_key(path@) && v@ == self@[path@],
                None => !self@.contains_key(path@),
            },
    {
        self.inner.get(path)
    }

    pub fn insert(&mut self, path: &str, content: &str)
        requires
            old(self).wf(),
        ensures
            final(self)@ == old(self)@.insert(path@, content@),
            final(self).wf(),
    {
        self.inner.insert(String::from_str(path), String::from_str(content));
    }

    /// How many files the set holds.
    pub fn len(&self) -> (r: usize)
        requires
            self.wf(),
        ensures
            r == self@.dom().len(),
            self@.dom().finite(),
    {
        self.inner.len()
    }
}

/// The map described by a pattern-instance association list.
pub open spec fn assoc_map_lists(s: Seq<(String, Vec<String>)>) -> Map<Seq<char>, Seq<Seq<char>>>
    decreases s.len(),
{
    if s.len() == 0 {
        Map::empty()
    } else {
        assoc_map_lists(s.drop_last()).insert(s.last().0@, s.last().1.deep_view())
    }
}

/// No two entries share a key.
pub open spec fn unique_keys_lists(s: Seq<(String, Vec<String>)>) -> bool {
    forall|i: int, j: int| 0 <= i < j < s.len() ==> s[i].0@ != s[j].0@
}

pub proof fn lemma_assoc_lists_absent(s: Seq<(String, Vec<String>)>, k: Seq<char>)
    requires
        forall|i: int| 0 <= i < s.len() ==> s[i].0@ != k,
    ensures
        !assoc_map_lists(s).contains_key(k),
    decreases s.len(),
{
    if s.len() > 0 {
        lemma_assoc_lists_absent(s.drop_last(), k);
    }
}

pub proof fn lemma_assoc_lists_present(s: Seq<(String, Vec<String>)>, i: int)
    requires
        unique_keys_lists(s),
        0 <= i < s.len(),
    ensures
        assoc_map_lists(s).contains_key(s[i].0@),
        assoc_map_lists(s)[s[i].0@] == s[i].1.deep_view(),
    decreases s.len(),
{
    if i == s.len() - 1 {
        assert(forall|j: int|
            0 <= j < s.drop_last().len() ==> #[trigger] s.drop_last()[j].0@ != s[i].0@);
    } else {
        lemma_assoc_lists_present(s.drop_last(), i);
        assert(s.drop_last()[i] == s[i]);
    }
}

/// A pattern-instance table: each name holds the rendered instances
/// registered under it, in registration order.
#[derive(Clone, Debug, PartialEq)]
pub struct PatMap {
    entries: Vec<(String, Vec<String>)>,
}

impl View for PatMap {
    type V = Map<Seq<char>, Seq<Seq<char>>>;

    closed spec fn view(&self) -> Map<Seq<char>, Seq<Seq<char>>> {
        assoc_map_lists(self.entries@)
    }
}

impl PatMap {
    pub closed spec fn wf(&self) -> bool {
        unique_keys_lists(self.entries@)
    }

    pub fn new() -> (r: Self)
        ensures
            r@ == Map::<Seq<char>, Seq<Seq<char>>>::empty(),
            r.wf(),
    {
        Self { entries: Vec::new() }
    }

    fn find_idx(&self, key: &str) -> (r: Option<usize>)
        ensures
            match r {
                Some(i) => i < self.entries@.len() && self.entries@[i as int].0@ == key@,
                None => forall|j: int| 0 <= j < self.entries@.len() ==> self.entries@[j].0@ != key@,
            },
    {
        let mut i: usize = 0;
        while i < self.entries.len()
            invariant
                i <= self.entries@.len(),
                forall|j: int| 0 <= j < i ==> self.entries@[j].0@ != key@,
            decreases self.entries@.len() - i,
        {
            if crate::strutil::str_eq(self.entries[i].0.as_str(), key) {
                return Some(i);
            }
            i = i + 1;
        }
        None
    }

    pub fn get(&self, key: &str) -> (r: Option<&Vec<String>>)
        requires
            self.wf(),
        ensures
            match r {
                Some(v) => self@.contains_key(key@) && v.deep_view() == self@[key@],
                None => !self@.contains_key(key@),
            },
    {
        match self.find_idx(key) {
            Some(i) => {
                proof {
                    lemma_assoc_lists_present(self.entries@, i as int);
                }
                Some(&self.entries[i].1)
            },
            None => {
                proof {
                    lemma_assoc_lists_absent(self.entries@, key@);
                }
                None
            },
        }
    }

    /// Registers one more instance under the key, after any already there.
    pub fn append(&mut self, key: String, value: String)
        requires
            old(self).wf(),
        ensures
            final(self)@ == old(self)@.insert(
                key@,
                (if old(self)@.contains_key(key@) {
                    old(self)@[key@]
                } else {
                    Seq::<Seq<char>>::empty()
                }).push(value@),
            ),
            final(self).wf(),
    {
        let ghost s0 = self.entries@;
        let ghost old_list: Seq<Seq<char>> = if old(self)@.contains_key(key@) {
            old(self)@[key@]
        } else {
            Seq::<Seq<char>>::empty()
        };
        let mut list: Vec<String>;
        match self.find_idx(key.as_str()) {
            Some(i) => {
                proof {
                    lemma_assoc_lists_present(s0, i as int);
                }
                let entry = self.entries.remove(i);
                list = entry.1;
                proof {
                    lemma_assoc_lists_remove(s0, i as int);
                    assert(list.deep_view() == old_list);
                }
            },
            None => {
                list = Vec::new();
                proof {
                    lemma_assoc_lists_absent(s0, key@);
                    assert(assoc_map_lists(s0).remove(key@) =~= assoc_map_lists(s0));
                    assert(list.deep_view() =~= old_list);
                }
            },
        }
        let ghost l0 = list.deep_view();
        proof {
            assert(l0 == old_list);
        }
        list.push(value);
        proof {
            assert(list.deep_view() =~= l0.push(value@));
        }
        let ghost s1 = self.entries@;
        proof {
            assert(assoc_map_lists(s1) =~= assoc_map_lists(s0).remove(key@));
            assert(forall|j: int| 0 <= j < s1.len() ==> #[trigger] s1[j].0@ != key@);
        }
        self.entries.push((key, list));
        proof {
            assert(self.entries@.drop_last() =~= s1);
            assert(assoc_map_lists(self.entries@) =~= assoc_map_lists(s0).insert(
                key@,
                list.deep_view(),
            ));
        }
    }

    pub fn clear(&mut self)
        ensures
            final(self)@ == Map::<Seq<char>, Seq<Seq<char>>>::empty(),
            final(self).wf(),
    {
        self.entries = Vec::new();
    }

    /// An exact copy of the table.
    pub fn dup(&self) -> (r: Self)
        ensures
            r@ == self@,
            r.wf() == self.wf(),
    {
        let mut entries: Vec<(String, Vec<String>)> = Vec::new();
        let mut i: usize = 0;
        while i < self.entries.len()
            invariant
                i <= self.entries@.len(),
                entries@.len() == i,
                forall|j: int|
                    0 <= j < i ==> (#[trigger] entries@[j]).0@ == self.entries@[j].0@
                        && entries@[j].1.deep_view() == self.entries@[j].1.deep_view(),
            decreases self.entries@.len() - i,
        {
            let list = dup_strings(&self.entries[i].1);
            entries.push((self.entries[i].0.clone(), list));
            i = i + 1;
        }
        proof {
            lemma_assoc_lists_congr(entries@, self.entries@);
        }
        Self { entries }
    }
}

/// Association lists whose keys and value views agree entry by entry
/// describe the same map.
proof fn lemma_assoc_lists_congr(a: Seq<(String, Vec<String>)>, b: Seq<(String, Vec<String>)>)
    requires
        a.len() == b.len(),
        forall|j: int|
            0 <= j < a.len() ==> (#[trigger] a[j]).0@ == b[j].0@ && a[j].1.deep_view()
                == b[j].1.deep_view(),
    ensures
        assoc_map_lists(a) == assoc_map_lists(b),
        unique_keys_lists(a) == unique_keys_lists(b),
    decreases a.len(),
{
    if a.len() > 0 {
        lemma_assoc_lists_congr(a.drop_last(), b.drop_last());
        assert(assoc_map_lists(a) =~= assoc_map_lists(b));
        if unique_keys_lists(a) {
            assert forall|i: int, j: int| 0 <= i < j < b.len() implies b[i].0@ != b[j].0@ by {
                assert(a[i].0@ == b[i].0@);
                assert(a[j].0@ == b[j].0@);
                assert(a[i].0@ != a[j].0@);
            }
            assert(unique_keys_lists(b));
        }
        if unique_keys_lists(b) {
            assert forall|i: int, j: int| 0 <= i < j < a.len() implies a[i].0@ != a[j].0@ by {
                assert(a[i].0@ == b[i].0@);
                assert(a[j].0@ == b[j].0@);
                assert(b[i].0@ != b[j].0@);
            }
            assert(unique_keys_lists(a));
        }
    } else {
        assert(unique_keys_lists(a));
        assert(unique_keys_lists(b));
    }
}

/// An exact copy of a vector of strings.
fn dup_strings(v: &Vec<String>) -> (r: Vec<String>)
    ensures
        r@ == v@,
{
    let mut r: Vec<String> = Vec::new();
    let mut i: usize = 0;
    while i < v.len()
        invariant
            i <= v@.len(),
            r@.len() == i,
            forall|j: int| 0 <= j < i ==> r@[j] == v@[j],
        decreases v@.len() - i,
    {
        r.push(v[i].clone());
        i = i + 1;
    }
    proof {
        assert(r@ =~= v@);
    }
    r
}

/// Removing the entry that holds a key removes that key from the map.
proof fn lemma_assoc_lists_remove(s: Seq<(String, Vec<String>)>, i: int)
    requires
        unique_keys_lists(s),
        0 <= i < s.len(),
    ensures
        assoc_map_lists(s.remove(i)) =~= assoc_map_lists(s).remove(s[i].0@),
        unique_keys_lists(s.remove(i)),
        forall|j: int| 0 <= j < s.remove(i).len() ==> #[trigger] s.remove(i)[j].0@ != s[i].0@,
    decreases s.len(),
{
    let k = s[i].0@;
    if i == s.len() - 1 {
        assert(s.remove(i) =~= s.drop_last());
        lemma_assoc_lists_absent(s.drop_last(), k);
        assert(assoc_map_lists(s.drop_last()).remove(k) =~= assoc_map_lists(s.drop_last()));
    } else {
        lemma_assoc_lists_remove(s.drop_last(), i);
        assert(s.remove(i).drop_last() =~= s.drop_last().remove(i));
        assert(s.remove(i).last() == s.last());
        assert(assoc_map_lists(s.remove(i)) =~= assoc_map_lists(s.drop_last().remove(i)).insert(
            s.last().0@,
            s.last().1.deep_view(),
        ));
    }
}

/// Removing the entry that holds a key removes that key from the map.
proof fn lemma_assoc_remove(s: Seq<(String, String)>, i: int)
    requires
        unique_keys(s),
        0 <= i < s.len(),
    ensures
        assoc_map(s.remove(i)) =~= assoc_map(s).remove(s[i].0@),
        unique_keys(s.remove(i)),
        forall|j: int| 0 <= j < s.remove(i).len() ==> #[trigger] s.remove(i)[j].0@ != s[i].0@,
    decreases s.len(),
{
    let k = s[i].0@;
    if i == s.len() - 1 {
        assert(s.remove(i) =~= s.drop_last());
        lemma_assoc_absent_remove(s.drop_last(), k);
    } else {
        lemma_assoc_remove(s.drop_last(), i);
        assert(s.remove(i).drop_last() =~= s.drop_last().remove(i));
        assert(s.remove(i).last() == s.last());
        assert(assoc_map(s.remove(i)) =~= assoc_map(s.drop_last().remove(i)).insert(
            s.last().0@,
            s.last().1@,
        ));
    }
}

/// A map without a key is unchanged by removing that key.
proof fn lemma_assoc_absent_remove(s: Seq<(String, String)>, k: Seq<char>)
    requires
        forall|i: int| 0 <= i < s.len() ==> s[i].0@ != k,
    ensures
        assoc_map(s).remove(k) =~= assoc_map(s),
{
    lemma_assoc_absent(s, k);
}

} // verus!
