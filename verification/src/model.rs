//! Shared data model: a `Document` is an optional document-wide metadata
//! table plus an ordered list of `Issue` records, each with a title, a
//! description, and optional per-issue metadata.

use vstd::prelude::*;

verus! {

/// The map described by a list of key/value pairs, later pairs winning.
pub open spec fn pairs_map(s: Seq<(String, String)>) -> Map<Seq<char>, Seq<char>>
    decreases s.len(),
{
    if s.len() == 0 {
        Map::empty()
    } else {
        pairs_map(s.drop_last()).insert(s.last().0@, s.last().1@)
    }
}

/// A string-keyed, string-valued side table attached to a document or an
/// issue. Keys are unique within one instance; inserting under an existing
/// key replaces its value.
#[derive(Debug, Clone)]
pub struct Metadata {
    entries: Vec<(String, String)>,
}

impl View for Metadata {
    type V = Map<Seq<char>, Seq<char>>;

    closed spec fn view(&self) -> Map<Seq<char>, Seq<char>> {
        pairs_map(self.entries@)
    }
}

/// A key occurs in `pairs_map(s)` exactly when some pair of `s` carries it.
proof fn lemma_pairs_map_dom(s: Seq<(String, String)>, k: Seq<char>)
    ensures
        pairs_map(s).contains_key(k) <==> exists|i: int| 0 <= i < s.len() && s[i].0@ == k,
    decreases s.len(),
{
    if s.len() > 0 {
        lemma_pairs_map_dom(s.drop_last(), k);
        if s.last().0@ == k {
            assert(s[s.len() - 1].0@ == k);
        } else if exists|i: int| 0 <= i < s.len() && s[i].0@ == k {
            let i = choose|i: int| 0 <= i < s.len() && s[i].0@ == k;
            assert(s.drop_last()[i].0@ == k);
        }
    }
}

/// With unique keys, `pairs_map(s)` maps each listed key to its listed value.
proof fn lemma_pairs_map_at(s: Seq<(String, String)>, i: int)
    requires
        forall|p: int, q: int| 0 <= p < q < s.len() ==> s[p].0@ != s[q].0@,
        0 <= i < s.len(),
    ensures
        pairs_map(s).contains_pair(s[i].0@, s[i].1@),
    decreases s.len(),
{
    if i == s.len() - 1 {
    } else {
        lemma_pairs_map_at(s.drop_last(), i);
        assert(s.drop_last()[i] == s[i]);
        assert(s[i].0@ != s.last().0@);
    }
}

impl Metadata {
    /// Keys are pairwise distinct.
    pub closed spec fn wf(&self) -> bool {
        forall|i: int, j: int| 0 <= i < j < self.entries@.len() ==> self.entries@[i].0@ != self.entries@[j].0@
    }

    /// An empty metadata table.
    pub fn new() -> (r: Metadata)
        ensures
            r.wf(),
            r@ == Map::<Seq<char>, Seq<char>>::empty(),
    {
        Metadata { entries: Vec::new() }
    }

    /// Insert a pair, replacing the value of an already present key.
    pub fn insert(&mut self, key: String, value: String)
        requires
            old(self).wf(),
        ensures
            final(self).wf(),
            final(self)@ == old(self)@.insert(key@, value@),
    {
        let ghost s0 = self.entries@;
        let mut i: usize = 0;
        while i < self.entries.len()
            invariant
                self.entries@ == s0,
                0 <= i <= s0.len(),
                old(self)@ == pairs_map(s0),
                forall|j: int| 0 <= j < i ==> s0[j].0@ != key@,
                forall|x: int, y: int| 0 <= x < y < s0.len() ==> s0[x].0@ != s0[y].0@,
            decreases s0.len() - i,
        {
            if self.entries[i].0 == key {
                self.entries.set(i, (key, value));
                proof {
                    lemma_update_is_insert(s0, i as int, self.entries@[i as int]);
                }
                return;
            }
            i += 1;
        }
        self.entries.push((key, value));
        proof {
            assert(self.entries@.drop_last() == s0);
        }
    }

    /// Look a key up.
    pub fn get(&self, key: &str) -> (r: Option<&String>)
        requires
            self.wf(),
        ensures
            match r {
                Some(v) => self@.contains_key(key@) && v@ == self@[key@],
                None => !self@.contains_key(key@),
            },
    {
        let k = key.to_owned();
        let mut i: usize = 0;
        while i < self.entries.len()
            invariant
                0 <= i <= self.entries@.len(),
                k@ == key@,
                forall|j: int| 0 <= j < i ==> self.entries@[j].0@ != key@,
                self.wf(),
            decreases self.entries@.len() - i,
        {
            if self.entries[i].0 == k {
                proof {
                    lemma_pairs_map_at(self.entries@, i as int);
                }
                return Some(&self.entries[i].1);
            }
            i += 1;
        }
        proof {
            lemma_pairs_map_dom(self.entries@, key@);
        }
        None
    }

    /// The pairs, in insertion order; their map is the table's value, and
    /// for a well-formed table the keys are pairwise distinct.
    pub fn pairs(&self) -> (r: &Vec<(String, String)>)
        ensures
            pairs_map(r@) == self@,
            self.wf() ==> forall|i: int, j: int|
                0 <= i < j < r@.len() ==> r@[i].0@ != r@[j].0@,
    {
        &self.entries
    }
}

/// Updating the pair at a matching key is, as a map, an insert.
proof fn lemma_update_is_insert(s: Seq<(String, String)>, i: int, p: (String, String))
    requires
        forall|x: int, y: int| 0 <= x < y < s.len() ==> s[x].0@ != s[y].0@,
        0 <= i < s.len(),
        p.0@ == s[i].0@,
    ensures
        pairs_map(s.update(i, p)) == pairs_map(s).insert(p.0@, p.1@),
        forall|x: int, y: int| 0 <= x < y < s.len() ==> #[trigger] s.update(i, p)[x].0@ != #[trigger] s.update(i, p)[y].0@,
{
    let t = s.update(i, p);
    assert forall|x: int, y: int| 0 <= x < y < s.len() implies #[trigger] t[x].0@ != #[trigger] t[y].0@ by {
        assert(t[x].0@ == s[x].0@);
        assert(t[y].0@ == s[y].0@);
    }
    let m1 = pairs_map(t);
    let m2 = pairs_map(s).insert(p.0@, p.1@);
    assert forall|k: Seq<char>| m1.contains_key(k) <==> m2.contains_key(k) by {
        lemma_pairs_map_dom(t, k);
        lemma_pairs_map_dom(s, k);
        if m1.contains_key(k) {
            let x = choose|x: int| 0 <= x < t.len() && t[x].0@ == k;
            assert(s[x].0@ == k);
        }
        if m2.contains_key(k) {
            if k == p.0@ {
                assert(t[i].0@ == k);
            } else {
                let x = choose|x: int| 0 <= x < s.len() && s[x].0@ == k;
                assert(t[x].0@ == k);
            }
        }
    }
    assert forall|k: Seq<char>| m1.contains_key(k) implies m1[k] == m2[k] by {
        lemma_pairs_map_dom(t, k);
        let x = choose|x: int| 0 <= x < t.len() && t[x].0@ == k;
        lemma_pairs_map_at(t, x);
        if k == p.0@ {
            assert(x == i);
        } else {
            assert(s[x].0@ == k);
            lemma_pairs_map_at(s, x);
        }
    }
    assert(m1 =~= m2);
}

/// The view of an optional metadata table.
pub open spec fn opt_meta_view(m: Option<Metadata>) -> Option<Map<Seq<char>, Seq<char>>> {
    match m {
        Option::None => Option::None,
        Option::Some(mm) => Option::Some(mm@),
    }
}

/// A single title + description (+ optional metadata) record intended to
/// become one ticket in an external tracker.
#[derive(Debug, Clone)]
pub struct Issue {
    pub metadata: Option<Metadata>,
    pub title: String,
    pub description: String,
}

/// The mathematical value of an [`Issue`].
#[verifier::ext_equal]
pub struct IssueModel {
    pub title: Seq<char>,
    pub description: Seq<char>,
    pub metadata: Option<Map<Seq<char>, Seq<char>>>,
}

impl View for Issue {
    type V = IssueModel;

    open spec fn view(&self) -> IssueModel {
        IssueModel {
            title: self.title@,
            description: self.description@,
            metadata: opt_meta_view(self.metadata),
        }
    }
}

impl Issue {
    /// Any metadata table present has unique keys.
    pub open spec fn wf(&self) -> bool {
        match self.metadata {
            Option::Some(m) => m.wf(),
            Option::None => true,
        }
    }
}

/// The full parse result: optional document metadata plus an ordered list
/// of issues.
#[derive(Debug, Clone)]
pub struct Document {
    pub metadata: Option<Metadata>,
    pub issues: Vec<Issue>,
}

/// The mathematical value of a [`Document`].
#[verifier::ext_equal]
pub struct DocumentModel {
    pub metadata: Option<Map<Seq<char>, Seq<char>>>,
    pub issues: Seq<IssueModel>,
}

impl View for Document {
    type V = DocumentModel;

    open spec fn view(&self) -> DocumentModel {
        DocumentModel {
            metadata: opt_meta_view(self.metadata),
            issues: self.issues@.map_values(|i: Issue| i@),
        }
    }
}

impl Document {
    /// Every metadata table present has unique keys.
    pub open spec fn wf(&self) -> bool {
        &&& match self.metadata {
            Option::Some(m) => m.wf(),
            Option::None => true,
        }
        &&& forall|i: int| 0 <= i < self.issues@.len() ==> (#[trigger] self.issues@[i]).wf()
    }
}

/// Error taxonomy of a parse call: `Format` when the source text does not
/// conform to the table-document grammar, `Value` when a scalar entry's
/// value is not a string where one was required.
#[derive(Debug, Clone, Copy, PartialEq, Eq, Structural)]
pub enum ParseError {
    Format,
    Value,
}

} // verus!
