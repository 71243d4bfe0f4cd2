//! Tags: normalized labels attached to journal entries.
//!
//! A `Tag` wraps a label string with any leading `#` markers stripped at
//! construction time (`from_hash`); equality and set membership go by exact
//! string equality on the wrapped name.

use vstd::prelude::*;

verus! {

/// A normalized label value. Its view is the sequence of characters of its
/// name.
#[derive(Debug)]
pub struct Tag {
    pub name: String,
}

impl View for Tag {
    type V = Seq<char>;

    open spec fn view(&self) -> Seq<char> {
        self.name@
    }
}

impl Tag {
    /// Wraps a name as given; no normalization.
    pub fn new(name: String) -> (t: Tag)
        ensures
            t@ == name@,
    {
        Tag { name }
    }

    /// Builds a tag from a `#`-prefixed token, stripping every leading `#`.
    pub fn from_hash(s: &str) -> (t: Tag)
        ensures
            t@ == strip_leading_hashes(s@),
    {
        let n = s.unicode_len();
        let mut i: usize = 0;
        while i < n && s.get_char(i) == '#'
            invariant
                0 <= i <= n,
                n == s@.len(),
                forall|j: int| 0 <= j < i ==> s@[j] == '#',
            decreases n - i,
        {
            i += 1;
        }
        proof {
            lemma_strip_leading_hashes(s@, i as int);
        }
        let rest = s.substring_char(i, n);
        Tag::new(String::from_str(rest))
    }
}

impl PartialEq for Tag {
    fn eq(&self, other: &Tag) -> (r: bool) {
        self.name == other.name
    }
}

impl Eq for Tag {}

impl vstd::std_specs::cmp::PartialEqSpecImpl for Tag {
    open spec fn obeys_eq_spec() -> bool {
        true
    }

    open spec fn eq_spec(&self, other: &Tag) -> bool {
        self@ == other@
    }
}

impl Clone for Tag {
    fn clone(&self) -> (r: Tag)
        ensures
            r@ == self@,
    {
        Tag { name: self.name.clone() }
    }
}

/// The characters of `s` after every leading `'#'`.
pub open spec fn strip_leading_hashes(s: Seq<char>) -> Seq<char>
    decreases s.len(),
{
    if s.len() > 0 && s[0] == '#' {
        strip_leading_hashes(s.drop_first())
    } else {
        s
    }
}

proof fn lemma_strip_leading_hashes(s: Seq<char>, i: int)
    requires
        0 <= i <= s.len(),
        forall|j: int| 0 <= j < i ==> s[j] == '#',
        i == s.len() || s[i] != '#',
    ensures
        strip_leading_hashes(s) == s.subrange(i, s.len() as int),
    decreases i,
{
    if i == 0 {
        assert(s.subrange(0, s.len() as int) =~= s);
    } else {
        assert(s.len() > 0 && s[0] == '#');
        let t = s.drop_first();
        lemma_strip_leading_hashes(t, i - 1);
        assert(t.subrange(i - 1, t.len() as int) =~= s.subrange(i, s.len() as int));
    }
}

} // verus!
