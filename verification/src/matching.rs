//! The match engine: free-text, fuzzy-subsequence, tag-set and date-range
//! predicates over entries.

use vstd::prelude::*;
use vstd::string::*;
use crate::date::Date;
use crate::entry::tag_names;
use crate::tag::Tag;

verus! {

/// How a query tag set is matched against an entry's tag set.
#[derive(Clone, Copy)]
pub enum TagMatch {
    /// At least one query tag must appear among the entry's tags.
    Any,
    /// Every query tag must appear among the entry's tags.
    All,
}

/// Tag-set matching: an empty query matches everything; otherwise `Any`
/// asks for at least one query tag among the entry's tags and `All` for
/// every one of them. Membership is exact name equality.
pub open spec fn spec_tags_match(
    query: Seq<Seq<char>>,
    entry: Seq<Seq<char>>,
    mode: TagMatch,
) -> bool {
    if query.len() == 0 {
        true
    } else {
        match mode {
            TagMatch::Any => exists|i: int| 0 <= i < query.len() && entry.contains(#[trigger] query[i]),
            TagMatch::All => forall|i: int| 0 <= i < query.len() ==> entry.contains(#[trigger] query[i]),
        }
    }
}

/// Whether `t` appears, by name, among `tags`.
pub fn tags_contain(tags: &[Tag], t: &Tag) -> (r: bool)
    ensures
        r == tag_names(tags@).contains(t@),
{
    let n = tags.len();
    let mut i: usize = 0;
    while i < n
        invariant
            0 <= i <= n,
            n == tags@.len(),
            forall|j: int| 0 <= j < i ==> tag_names(tags@)[j] != t@,
        decreases n - i,
    {
        if tags[i].eq(t) {
            assert(tag_names(tags@)[i as int] == t@);
            return true;
        }
        i += 1;
    }
    assert(!tag_names(tags@).contains(t@));
    false
}

/// Whether the query tags match the entry tags under the given mode.
pub fn do_tags_match(query_tags: &[Tag], entry_tags: &[Tag], match_type: TagMatch) -> (r: bool)
    ensures
        r == spec_tags_match(tag_names(query_tags@), tag_names(entry_tags@), match_type),
{
    let n = query_tags.len();
    if n == 0 {
        return true;
    }
    let is_any = match match_type {
        TagMatch::Any => true,
        TagMatch::All => false,
    };
    assert(is_any == (match_type is Any));
    if is_any {
        let mut i: usize = 0;
        while i < n
            invariant
                0 <= i <= n,
                n == query_tags@.len(),
                match_type is Any,
                forall|j: int| 0 <= j < i ==> !tag_names(entry_tags@).contains(
                    #[trigger] tag_names(query_tags@)[j],
                ),
            decreases n - i,
        {
            if tags_contain(entry_tags, &query_tags[i]) {
                assert(tag_names(entry_tags@).contains(tag_names(query_tags@)[i as int]));
                assert(exists|m: int|
                    0 <= m < tag_names(query_tags@).len() && tag_names(entry_tags@).contains(
                        #[trigger] tag_names(query_tags@)[m],
                    ));
                return true;
            }
            i += 1;
        }
        false
    } else {
        let mut i: usize = 0;
        while i < n
            invariant
                0 <= i <= n,
                n == query_tags@.len(),
                match_type is All,
                forall|j: int| 0 <= j < i ==> tag_names(entry_tags@).contains(
                    #[trigger] tag_names(query_tags@)[j],
                ),
            decreases n - i,
        {
            if !tags_contain(entry_tags, &query_tags[i]) {
                assert(!tag_names(entry_tags@).contains(tag_names(query_tags@)[i as int]));
                return false;
            }
            i += 1;
        }
        true
    }
}

/// Ordered-subsequence matching: each needle character must be found in
/// the haystack at or after the position where the previous one was found.
/// The empty needle always matches. This is not edit distance.
pub open spec fn is_subsequence(needle: Seq<char>, hay: Seq<char>) -> bool
    decreases hay.len(),
{
    if needle.len() == 0 {
        true
    } else if hay.len() == 0 {
        false
    } else if needle[0] == hay[0] {
        is_subsequence(needle.drop_first(), hay.drop_first())
    } else {
        is_subsequence(needle, hay.drop_first())
    }
}

/// Whether `needle` occurs in `haystack` as an ordered subsequence.
pub fn fuzzy_match(haystack: &str, needle: &str) -> (r: bool)
    ensures
        r == is_subsequence(needle@, haystack@),
{
    let hn = haystack.unicode_len();
    let nn = needle.unicode_len();
    proof {
        assert(needle@.subrange(0, nn as int) =~= needle@);
        assert(haystack@.subrange(0, hn as int) =~= haystack@);
    }
    let mut i: usize = 0;
    let mut j: usize = 0;
    while i < hn && j < nn
        invariant
            0 <= i <= hn,
            0 <= j <= nn,
            hn == haystack@.len(),
            nn == needle@.len(),
            is_subsequence(needle@, haystack@) == is_subsequence(
                needle@.subrange(j as int, nn as int),
                haystack@.subrange(i as int, hn as int),
            ),
        decreases hn - i,
    {
        let ghost nd = needle@.subrange(j as int, nn as int);
        let ghost hy = haystack@.subrange(i as int, hn as int);
        assert(nd[0] == needle@[j as int]);
        assert(hy[0] == haystack@[i as int]);
        if haystack.get_char(i) == needle.get_char(j) {
            proof {
                assert(nd.drop_first() =~= needle@.subrange(j + 1, nn as int));
                assert(hy.drop_first() =~= haystack@.subrange(i + 1, hn as int));
            }
            j += 1;
        } else {
            proof {
                assert(hy.drop_first() =~= haystack@.subrange(i + 1, hn as int));
            }
        }
        i += 1;
    }
    proof {
        if j == nn {
            assert(needle@.subrange(j as int, nn as int) =~= Seq::<char>::empty());
        } else {
            assert(haystack@.subrange(i as int, hn as int) =~= Seq::<char>::empty());
        }
    }
    j == nn
}

/// Substring containment: some contiguous run of `hay` equals `needle`.
/// The empty needle is contained in everything.
pub open spec fn contains_sub(hay: Seq<char>, needle: Seq<char>) -> bool {
    exists|k: int|
        0 <= k <= hay.len() - needle.len() && #[trigger] hay.subrange(k, k + needle.len() as int)
            == needle
}

/// Whether `hay` holds `needle` as a contiguous substring, comparing the
/// run of characters starting at `k`.
pub(crate) fn match_at(hay: &str, needle: &str, k: usize) -> (r: bool)
    requires
        k + needle@.len() <= hay@.len(),
    ensures
        r == (hay@.subrange(k as int, k as int + needle@.len() as int) == needle@),
{
    let hn = hay.unicode_len();
    let nn = needle.unicode_len();
    let ghost sub = hay@.subrange(k as int, k as int + nn as int);
    let mut t: usize = 0;
    while t < nn
        invariant
            0 <= t <= nn,
            hn == hay@.len(),
            nn == needle@.len(),
            k + nn <= hay@.len(),
            sub == hay@.subrange(k as int, k as int + nn as int),
            forall|m: int| 0 <= m < t ==> sub[m] == needle@[m],
        decreases nn - t,
    {
        assert(sub[t as int] == hay@[k + t]);
        if hay.get_char(k + t) != needle.get_char(t) {
            assert(sub[t as int] != needle@[t as int]);
            return false;
        }
        t += 1;
    }
    proof {
        assert(sub =~= needle@);
    }
    true
}

/// Whether `hay` holds `needle` as a contiguous substring.
pub fn contains_str(hay: &str, needle: &str) -> (r: bool)
    ensures
        r == contains_sub(hay@, needle@),
{
    let hn = hay.unicode_len();
    let nn = needle.unicode_len();
    if nn > hn {
        return false;
    }
    if nn == 0 {
        proof {
            assert(contains_sub(hay@, needle@)) by {
                assert(hay@.subrange(0, 0 + needle@.len() as int) =~= needle@);
            }
        }
        return true;
    }
    let limit = hn - nn;
    let mut k: usize = 0;
    loop
        invariant
            0 <= k <= limit,
            limit == hn - nn,
            1 <= nn <= hn,
            hn == hay@.len(),
            nn == needle@.len(),
            forall|m: int| 0 <= m < k ==> #[trigger] hay@.subrange(m, m + needle@.len() as int)
                != needle@,
        decreases limit - k,
    {
        if match_at(hay, needle, k) {
            proof {
                assert(contains_sub(hay@, needle@)) by {
                    assert(0 <= k as int <= hay@.len() - needle@.len());
                    assert(hay@.subrange(k as int, k as int + needle@.len() as int) == needle@);
                }
            }
            return true;
        }
        if k == limit {
            assert(forall|m: int| 0 <= m <= limit ==> #[trigger] hay@.subrange(
                m,
                m + needle@.len() as int,
            ) != needle@);
            return false;
        }
        k += 1;
    }
}

/// Free-text matching of a term against content: fuzzy asks for an ordered
/// subsequence, otherwise the term must occur as a contiguous substring.
/// Case handling is the caller's: both strings arrive already folded, or
/// not at all.
pub open spec fn spec_content_match(content: Seq<char>, term: Seq<char>, fuzzy: bool) -> bool {
    if fuzzy {
        is_subsequence(term, content)
    } else {
        contains_sub(content, term)
    }
}

/// Whether `term` matches `content`, fuzzily or as a substring.
pub fn check_content_match(content: &str, term: &str, fuzzy: bool) -> (r: bool)
    ensures
        r == spec_content_match(content@, term@, fuzzy),
{
    if fuzzy {
        fuzzy_match(content, term)
    } else {
        contains_str(content, term)
    }
}

/// Date-range matching: the date must lie at or after `from` and at or
/// before `to`; an absent bound imposes no constraint.
pub open spec fn spec_date_in_range(d: Date, from: Option<Date>, to: Option<Date>) -> bool {
    &&& match from {
        Some(f) => f.spec_le(d),
        None => true,
    }
    &&& match to {
        Some(t) => d.spec_le(t),
        None => true,
    }
}

/// Whether `entry_date` lies within the inclusive range `from..=to`.
pub fn check_date_range(entry_date: &Date, from: &Option<Date>, to: &Option<Date>) -> (r: bool)
    ensures
        r == spec_date_in_range(*entry_date, *from, *to),
{
    if let Some(f) = from {
        if !f.le(entry_date) {
            return false;
        }
    }
    if let Some(t) = to {
        if !entry_date.le(t) {
            return false;
        }
    }
    true
}

/// What `str::to_lowercase` returns for the given characters; the result
/// depends on the characters alone.
pub uninterp spec fn lower_of(s: Seq<char>) -> Seq<char>;

/// Relies on `str::to_lowercase`: Unicode lowercasing, a function of the
/// character sequence alone.
#[verifier::external_body]
pub(crate) fn lowercase(s: &str) -> (r: String)
    ensures
        r@ == lower_of(s@),
{
    s.to_lowercase()
}

} // verus!
