//! Tokenizing of raw entry content: whitespace splitting, trimming, tag
//! extraction and body composition.
//!
//! Content is split on whitespace; every token beginning with `#` names a
//! tag (the marker stripped, order of appearance kept, duplicates kept);
//! the body is either the trimmed content as given, or, when tags are not
//! to be shown in the body, the remaining tokens rejoined with single
//! spaces.

use vstd::prelude::*;
use vstd::string::*;
use crate::tag::Tag;
use crate::entry::tag_names;

verus! {

/// Whitespace, for splitting: blank, tab, line feed and carriage return.
pub open spec fn is_ws(c: char) -> bool {
    c == ' ' || c == '\t' || c == '\n' || c == '\r'
}

pub fn is_whitespace_char(c: char) -> (r: bool)
    ensures
        r == is_ws(c),
{
    c == ' ' || c == '\t' || c == '\n' || c == '\r'
}

/// Length of the leading token: the number of characters before the first
/// whitespace (or all of them, when none is whitespace).
pub open spec fn token_end(s: Seq<char>) -> int
    decreases s.len(),
{
    if s.len() == 0 || is_ws(s[0]) {
        0
    } else {
        1 + token_end(s.drop_first())
    }
}

/// `token_end` marks the first whitespace position, or the end.
pub proof fn lemma_token_end(s: Seq<char>)
    ensures
        0 <= token_end(s) <= s.len(),
        forall|j: int| 0 <= j < token_end(s) ==> !is_ws(s[j]),
        token_end(s) < s.len() ==> is_ws(s[token_end(s)]),
        s.len() > 0 && !is_ws(s[0]) ==> token_end(s) >= 1,
    decreases s.len(),
{
    if s.len() > 0 && !is_ws(s[0]) {
        let t = s.drop_first();
        lemma_token_end(t);
        assert forall|j: int| 0 <= j < token_end(s) implies !is_ws(s[j]) by {
            if j > 0 {
                assert(s[j] == t[j - 1]);
            }
        }
    }
}

/// The converse: a whitespace-free prefix ending at whitespace (or at the
/// end) is the leading token.
pub proof fn lemma_token_end_at(s: Seq<char>, k: int)
    requires
        0 <= k <= s.len(),
        forall|j: int| 0 <= j < k ==> !is_ws(s[j]),
        k == s.len() || is_ws(s[k]),
    ensures
        token_end(s) == k,
    decreases s.len(),
{
    if k > 0 {
        let t = s.drop_first();
        assert(forall|j: int| 0 <= j < k - 1 ==> !is_ws(#[trigger] t[j]));
        lemma_token_end_at(t, k - 1);
    }
}

/// The whitespace-separated tokens of `s`, in order.
pub open spec fn spec_tokens(s: Seq<char>) -> Seq<Seq<char>>
    decreases s.len(),
    via spec_tokens_decreases
{
    if s.len() == 0 {
        Seq::empty()
    } else if is_ws(s[0]) {
        spec_tokens(s.drop_first())
    } else {
        let k = token_end(s);
        seq![s.subrange(0, k)] + spec_tokens(s.subrange(k, s.len() as int))
    }
}

#[via_fn]
proof fn spec_tokens_decreases(s: Seq<char>) {
    if s.len() > 0 && !is_ws(s[0]) {
        lemma_token_end(s);
    }
}

/// Whether a token names a tag: it begins with the `#` marker.
pub open spec fn is_tag_token(t: Seq<char>) -> bool {
    t.len() > 0 && t[0] == '#'
}

/// The tag names of `s`: each `#`-token in order, marker stripped,
/// duplicates kept.
pub open spec fn spec_extract_tags(s: Seq<char>) -> Seq<Seq<char>>
    decreases s.len(),
    via spec_extract_tags_decreases
{
    if s.len() == 0 {
        Seq::empty()
    } else if is_ws(s[0]) {
        spec_extract_tags(s.drop_first())
    } else {
        let k = token_end(s);
        let tok = s.subrange(0, k);
        let rest = spec_extract_tags(s.subrange(k, s.len() as int));
        if is_tag_token(tok) {
            seq![tok.drop_first()] + rest
        } else {
            rest
        }
    }
}

#[via_fn]
proof fn spec_extract_tags_decreases(s: Seq<char>) {
    if s.len() > 0 && !is_ws(s[0]) {
        lemma_token_end(s);
    }
}

/// Joins two already-joined pieces with a single space, dropping the
/// separator when either side is empty.
pub open spec fn join_sp(a: Seq<char>, b: Seq<char>) -> Seq<char> {
    if a.len() == 0 {
        b
    } else if b.len() == 0 {
        a
    } else {
        a + seq![' '] + b
    }
}

/// The body text of `s` with tags hidden: the non-`#` tokens, in order,
/// rejoined with single spaces.
pub open spec fn spec_body_text(s: Seq<char>) -> Seq<char>
    decreases s.len(),
    via spec_body_text_decreases
{
    if s.len() == 0 {
        Seq::empty()
    } else if is_ws(s[0]) {
        spec_body_text(s.drop_first())
    } else {
        let k = token_end(s);
        let tok = s.subrange(0, k);
        let rest = spec_body_text(s.subrange(k, s.len() as int));
        if is_tag_token(tok) {
            rest
        } else {
            join_sp(tok, rest)
        }
    }
}

#[via_fn]
proof fn spec_body_text_decreases(s: Seq<char>) {
    if s.len() > 0 && !is_ws(s[0]) {
        lemma_token_end(s);
    }
}

/// Index of the first non-whitespace character, or the length.
pub open spec fn ws_prefix_end(s: Seq<char>) -> int
    decreases s.len(),
{
    if s.len() == 0 || !is_ws(s[0]) {
        0
    } else {
        1 + ws_prefix_end(s.drop_first())
    }
}

/// One past the last non-whitespace character, or zero.
pub open spec fn ws_suffix_start(s: Seq<char>) -> int
    decreases s.len(),
{
    if s.len() == 0 || !is_ws(s[s.len() - 1]) {
        s.len() as int
    } else {
        ws_suffix_start(s.drop_last())
    }
}

/// `s` with leading and trailing whitespace removed.
pub open spec fn spec_trim(s: Seq<char>) -> Seq<char> {
    if ws_prefix_end(s) == s.len() {
        Seq::empty()
    } else {
        s.subrange(ws_prefix_end(s), ws_suffix_start(s))
    }
}

proof fn lemma_ws_prefix_end(s: Seq<char>)
    ensures
        0 <= ws_prefix_end(s) <= s.len(),
        forall|j: int| 0 <= j < ws_prefix_end(s) ==> is_ws(s[j]),
        ws_prefix_end(s) < s.len() ==> !is_ws(s[ws_prefix_end(s)]),
    decreases s.len(),
{
    if s.len() > 0 && is_ws(s[0]) {
        let t = s.drop_first();
        lemma_ws_prefix_end(t);
        assert forall|j: int| 0 <= j < ws_prefix_end(s) implies is_ws(s[j]) by {
            if j > 0 {
                assert(s[j] == t[j - 1]);
            }
        }
    }
}

proof fn lemma_ws_prefix_end_at(s: Seq<char>, k: int)
    requires
        0 <= k <= s.len(),
        forall|j: int| 0 <= j < k ==> is_ws(s[j]),
        k == s.len() || !is_ws(s[k]),
    ensures
        ws_prefix_end(s) == k,
    decreases s.len(),
{
    if k > 0 {
        let t = s.drop_first();
        assert(forall|j: int| 0 <= j < k - 1 ==> is_ws(#[trigger] t[j]));
        lemma_ws_prefix_end_at(t, k - 1);
    }
}

proof fn lemma_ws_suffix_start(s: Seq<char>)
    ensures
        0 <= ws_suffix_start(s) <= s.len(),
        forall|j: int| ws_suffix_start(s) <= j < s.len() ==> is_ws(s[j]),
        ws_suffix_start(s) > 0 ==> !is_ws(s[ws_suffix_start(s) - 1]),
    decreases s.len(),
{
    if s.len() > 0 && is_ws(s[s.len() - 1]) {
        let t = s.drop_last();
        lemma_ws_suffix_start(t);
        assert forall|j: int| ws_suffix_start(s) <= j < s.len() implies is_ws(s[j]) by {
            if j < s.len() - 1 {
                assert(s[j] == t[j]);
            }
        }
    }
}

proof fn lemma_ws_suffix_start_at(s: Seq<char>, k: int)
    requires
        0 <= k <= s.len(),
        forall|j: int| k <= j < s.len() ==> is_ws(s[j]),
        k == 0 || !is_ws(s[k - 1]),
    ensures
        ws_suffix_start(s) == k,
    decreases s.len(),
{
    if k < s.len() {
        let t = s.drop_last();
        assert(forall|j: int| k <= j < t.len() ==> is_ws(#[trigger] t[j]));
        lemma_ws_suffix_start_at(t, k);
    }
}

/// `s` with leading and trailing whitespace removed.
pub fn trim(s: &str) -> (r: String)
    ensures
        r@ == spec_trim(s@),
{
    proof {
        lemma_ws_prefix_end(s@);
        lemma_ws_suffix_start(s@);
    }
    let n = s.unicode_len();
    let mut a: usize = 0;
    while a < n && is_whitespace_char(s.get_char(a))
        invariant
            0 <= a <= n,
            n == s@.len(),
            forall|j: int| 0 <= j < a ==> is_ws(s@[j]),
        decreases n - a,
    {
        a += 1;
    }
    proof {
        lemma_ws_prefix_end_at(s@, a as int);
    }
    if a == n {
        return String::new();
    }
    let mut b: usize = n;
    while b > a && is_whitespace_char(s.get_char(b - 1))
        invariant
            a <= b <= n,
            n == s@.len(),
            forall|j: int| b <= j < n ==> is_ws(s@[j]),
        decreases b,
    {
        b -= 1;
    }
    proof {
        assert(!is_ws(s@[a as int]));
        assert(b > a);
        lemma_ws_suffix_start_at(s@, b as int);
    }
    String::from_str(s.substring_char(a, b))
}

/// The tags named in `content`: one per `#`-prefixed whitespace-separated
/// token, in order of appearance, the marker stripped, duplicates kept.
pub fn extract_tags(content: &str) -> (r: Vec<Tag>)
    ensures
        tag_names(r@) == spec_extract_tags(content@),
{
    let ghost s = content@;
    let n = content.unicode_len();
    let mut out: Vec<Tag> = Vec::new();
    proof {
        assert(s.subrange(0, n as int) =~= s);
        assert(tag_names(out@) + spec_extract_tags(s) =~= spec_extract_tags(s));
    }
    let mut i: usize = 0;
    while i < n
        invariant
            0 <= i <= n,
            n == s.len(),
            content@ == s,
            spec_extract_tags(s) == tag_names(out@) + spec_extract_tags(
                s.subrange(i as int, n as int),
            ),
        decreases n - i,
    {
        let ghost u = s.subrange(i as int, n as int);
        let c = content.get_char(i);
        assert(u[0] == c);
        if is_whitespace_char(c) {
            proof {
                assert(u.drop_first() =~= s.subrange(i + 1, n as int));
            }
            i += 1;
        } else {
            proof {
                lemma_token_end(u);
            }
            let mut j: usize = i + 1;
            while j < n && !is_whitespace_char(content.get_char(j))
                invariant
                    i < j <= n,
                    n == s.len(),
                    content@ == s,
                    forall|m: int| i <= m < j ==> !is_ws(s[m]),
                decreases n - j,
            {
                j += 1;
            }
            proof {
                let k = (j - i) as int;
                assert(forall|m: int| 0 <= m < k ==> !is_ws(#[trigger] u[m]));
                lemma_token_end_at(u, k);
                assert(u.subrange(0, k) =~= s.subrange(i as int, j as int));
                assert(u.subrange(k, u.len() as int) =~= s.subrange(j as int, n as int));
            }
            if content.get_char(i) == '#' {
                let ghost before = out@;
                let name = content.substring_char(i + 1, j);
                out.push(Tag::new(String::from_str(name)));
                proof {
                    let tok = s.subrange(i as int, j as int);
                    assert(name@ =~= tok.drop_first());
                    assert(tag_names(out@) =~= tag_names(before).push(tok.drop_first()));
                    assert(tag_names(out@) + spec_extract_tags(s.subrange(j as int, n as int))
                        =~= tag_names(before) + spec_extract_tags(u));
                }
            } else {
                proof {
                    let tok = s.subrange(i as int, j as int);
                    assert(!is_tag_token(tok));
                }
            }
            i = j;
        }
    }
    proof {
        assert(s.subrange(n as int, n as int) =~= Seq::<char>::empty());
        assert(tag_names(out@) =~= tag_names(out@) + spec_extract_tags(
            s.subrange(n as int, n as int),
        ));
    }
    out
}

/// The stored body for `content`: the content itself when tags stay
/// visible in the body, else the non-tag tokens rejoined with single
/// spaces.
pub fn extract_body(content: &str, tags_visible_in_body: bool) -> (r: String)
    ensures
        tags_visible_in_body ==> r@ == content@,
        !tags_visible_in_body ==> r@ == spec_body_text(content@),
{
    if tags_visible_in_body {
        return String::from_str(content);
    }
    let ghost s = content@;
    let n = content.unicode_len();
    let mut out = String::new();
    proof {
        assert(s.subrange(0, n as int) =~= s);
    }
    let mut i: usize = 0;
    while i < n
        invariant
            0 <= i <= n,
            n == s.len(),
            content@ == s,
            spec_body_text(s) == join_sp(out@, spec_body_text(s.subrange(i as int, n as int))),
        decreases n - i,
    {
        let ghost u = s.subrange(i as int, n as int);
        let c = content.get_char(i);
        assert(u[0] == c);
        if is_whitespace_char(c) {
            proof {
                assert(u.drop_first() =~= s.subrange(i + 1, n as int));
            }
            i += 1;
        } else {
            proof {
                lemma_token_end(u);
            }
            let mut j: usize = i + 1;
            while j < n && !is_whitespace_char(content.get_char(j))
                invariant
                    i < j <= n,
                    n == s.len(),
                    content@ == s,
                    forall|m: int| i <= m < j ==> !is_ws(s[m]),
                decreases n - j,
            {
                j += 1;
            }
            proof {
                let k = (j - i) as int;
                assert(forall|m: int| 0 <= m < k ==> !is_ws(#[trigger] u[m]));
                lemma_token_end_at(u, k);
                assert(u.subrange(0, k) =~= s.subrange(i as int, j as int));
                assert(u.subrange(k, u.len() as int) =~= s.subrange(j as int, n as int));
            }
            if content.get_char(i) != '#' {
                let ghost before = out@;
                let tok = content.substring_char(i, j);
                if out.unicode_len() > 0 {
                    out.append(" ");
                    proof {
                        reveal_strlit(" ");
                    }
                }
                out.append(tok);
                proof {
                    let tokv = s.subrange(i as int, j as int);
                    let rest = spec_body_text(s.subrange(j as int, n as int));
                    assert(out@ =~= join_sp(before, tokv));
                    lemma_join_sp_assoc(before, tokv, rest);
                }
            }
            i = j;
        }
    }
    proof {
        assert(s.subrange(n as int, n as int) =~= Seq::<char>::empty());
    }
    out
}

/// Joining is associative: folding tokens in from the left gives the same
/// text as the right-recursive definition.
proof fn lemma_join_sp_assoc(a: Seq<char>, b: Seq<char>, c: Seq<char>)
    ensures
        join_sp(join_sp(a, b), c) == join_sp(a, join_sp(b, c)),
{
    if a.len() > 0 && b.len() > 0 && c.len() > 0 {
        assert(join_sp(join_sp(a, b), c) =~= join_sp(a, join_sp(b, c)));
    }
}

/// One tag per whitespace-separated token of `s`, kept verbatim (no `#`
/// handling), in order.
pub fn parse_tags(s: &str) -> (r: Vec<Tag>)
    ensures
        tag_names(r@) == spec_tokens(s@),
{
    let ghost sv = s@;
    let n = s.unicode_len();
    let mut out: Vec<Tag> = Vec::new();
    proof {
        assert(sv.subrange(0, n as int) =~= sv);
        assert(tag_names(out@) + spec_tokens(sv) =~= spec_tokens(sv));
    }
    let mut i: usize = 0;
    while i < n
        invariant
            0 <= i <= n,
            n == sv.len(),
            s@ == sv,
            spec_tokens(sv) == tag_names(out@) + spec_tokens(sv.subrange(i as int, n as int)),
        decreases n - i,
    {
        let ghost u = sv.subrange(i as int, n as int);
        let c = s.get_char(i);
        assert(u[0] == c);
        if is_whitespace_char(c) {
            proof {
                assert(u.drop_first() =~= sv.subrange(i + 1, n as int));
            }
            i += 1;
        } else {
            proof {
                lemma_token_end(u);
            }
            let mut j: usize = i + 1;
            while j < n && !is_whitespace_char(s.get_char(j))
                invariant
                    i < j <= n,
                    n == sv.len(),
                    s@ == sv,
                    forall|m: int| i <= m < j ==> !is_ws(sv[m]),
                decreases n - j,
            {
                j += 1;
            }
            proof {
                let k = (j - i) as int;
                assert(forall|m: int| 0 <= m < k ==> !is_ws(#[trigger] u[m]));
                lemma_token_end_at(u, k);
                assert(u.subrange(0, k) =~= sv.subrange(i as int, j as int));
                assert(u.subrange(k, u.len() as int) =~= sv.subrange(j as int, n as int));
            }
            let ghost before = out@;
            let tok = s.substring_char(i, j);
            out.push(Tag::new(String::from_str(tok)));
            proof {
                assert(tag_names(out@) =~= tag_names(before).push(
                    sv.subrange(i as int, j as int),
                ));
                assert(tag_names(out@) + spec_tokens(sv.subrange(j as int, n as int)) =~= tag_names(
                    before,
                ) + spec_tokens(u));
            }
            i = j;
        }
    }
    proof {
        assert(sv.subrange(n as int, n as int) =~= Seq::<char>::empty());
        assert(tag_names(out@) =~= tag_names(out@) + spec_tokens(
            sv.subrange(n as int, n as int),
        ));
    }
    out
}

/// Every token is non-empty and holds no whitespace.
pub proof fn lemma_tokens_wellformed(s: Seq<char>)
    ensures
        forall|k: int| 0 <= k < spec_tokens(s).len() ==> (#[trigger] spec_tokens(s)[k]).len() > 0,
    decreases s.len(),
{
    if s.len() == 0 {
    } else if is_ws(s[0]) {
        lemma_tokens_wellformed(s.drop_first());
        assert(spec_tokens(s) == spec_tokens(s.drop_first()));
    } else {
        lemma_token_end(s);
        let e = token_end(s);
        let rest = s.subrange(e, s.len() as int);
        lemma_tokens_wellformed(rest);
        assert(spec_tokens(s)[0] == s.subrange(0, e));
        assert forall|k: int| 1 <= k < spec_tokens(s).len() implies (#[trigger] spec_tokens(
            s,
        )[k]).len() > 0 by {
            assert(spec_tokens(s)[k] == spec_tokens(rest)[k - 1]);
        }
    }
}

/// Content without any `#` token names no tags.
pub proof fn lemma_no_hash_tokens_no_tags(s: Seq<char>)
    requires
        forall|k: int| 0 <= k < spec_tokens(s).len() ==> !is_tag_token(#[trigger] spec_tokens(s)[k]),
    ensures
        spec_extract_tags(s).len() == 0,
    decreases s.len(),
{
    if s.len() == 0 {
    } else if is_ws(s[0]) {
        assert(spec_tokens(s) == spec_tokens(s.drop_first()));
        lemma_no_hash_tokens_no_tags(s.drop_first());
    } else {
        lemma_token_end(s);
        let k = token_end(s);
        let tok = s.subrange(0, k);
        let rest = s.subrange(k, s.len() as int);
        assert(spec_tokens(s)[0] == tok);
        assert forall|m: int| 0 <= m < spec_tokens(rest).len() implies !is_tag_token(
            #[trigger] spec_tokens(rest)[m],
        ) by {
            assert(spec_tokens(rest)[m] == spec_tokens(s)[m + 1]);
        }
        lemma_no_hash_tokens_no_tags(rest);
    }
}

/// Every `#` token of the content yields its stripped name among the
/// extracted tags.
pub proof fn lemma_hash_token_gives_tag(s: Seq<char>, k: int)
    requires
        0 <= k < spec_tokens(s).len(),
        is_tag_token(spec_tokens(s)[k]),
    ensures
        spec_extract_tags(s).contains(spec_tokens(s)[k].drop_first()),
    decreases s.len(),
{
    if s.len() == 0 {
    } else if is_ws(s[0]) {
        assert(spec_tokens(s) == spec_tokens(s.drop_first()));
        assert(spec_extract_tags(s) == spec_extract_tags(s.drop_first()));
        lemma_hash_token_gives_tag(s.drop_first(), k);
    } else {
        lemma_token_end(s);
        let e = token_end(s);
        let tok = s.subrange(0, e);
        let rest = s.subrange(e, s.len() as int);
        if k == 0 {
            assert(spec_extract_tags(s)[0] == tok.drop_first());
        } else {
            assert(spec_tokens(s)[k] == spec_tokens(rest)[k - 1]);
            lemma_hash_token_gives_tag(rest, k - 1);
            let i = choose|i: int|
                0 <= i < spec_extract_tags(rest).len() && spec_extract_tags(rest)[i]
                    == spec_tokens(rest)[k - 1].drop_first();
            if is_tag_token(tok) {
                assert(spec_extract_tags(s)[i + 1] == spec_extract_tags(rest)[i]);
            } else {
                assert(spec_extract_tags(s)[i] == spec_extract_tags(rest)[i]);
            }
        }
    }
}

} // verus!
