//! Removing entries: by one id, by an id range `start..end`, or by date
//! range. The batch is not transactional: ids are processed in ascending
//! order, each removal stands on its own, and the first missing id aborts
//! the rest, leaving the earlier removals applied.

use vstd::prelude::*;
use vstd::string::*;
use vstd::multiset::Multiset;
use crate::date::{Date, spec_parse_date, parse_date};
use crate::entry::EntryV;
use crate::error::{JotError, JotResult};
use crate::journal::{Journal, find_first};
use crate::matching::{spec_date_in_range, check_date_range};
use crate::num::{all_digits, digits_val, is_digit, lemma_digits_val_bound, parse_usize};

verus! {

/// The parameters of the remove command.
pub struct RemoveArgs {
    pub id: Option<usize>,
    pub range: Option<String>,
    pub from: Option<String>,
    pub to: Option<String>,
}

/// The position of the first `..`, or a negative value.
pub open spec fn find_dotdot(s: Seq<char>) -> int
    decreases s.len(),
{
    if s.len() < 2 {
        -1
    } else if s[0] == '.' && s[1] == '.' {
        0
    } else {
        let r = find_dotdot(s.drop_first());
        if r < 0 {
            -1
        } else {
            1 + r
        }
    }
}

proof fn lemma_find_dotdot(s: Seq<char>)
    ensures
        ({
            let k = find_dotdot(s);
            &&& k >= 0 ==> 0 <= k <= s.len() - 2 && s[k] == '.' && s[k + 1] == '.' && forall|j: int|
                0 <= j < k ==> !(#[trigger] s[j] == '.' && s[j + 1] == '.')
            &&& k < 0 ==> forall|j: int| 0 <= j < s.len() - 1 ==> !(#[trigger] s[j] == '.' && s[j
                + 1] == '.')
        }),
    decreases s.len(),
{
    if s.len() >= 2 && !(s[0] == '.' && s[1] == '.') {
        let t = s.drop_first();
        lemma_find_dotdot(t);
        let k = find_dotdot(s);
        if k >= 0 {
            assert(find_dotdot(t) == k - 1);
            assert(t[k - 1] == s[k] && t[k] == s[k + 1]);
            assert forall|j: int| 0 <= j < k implies !(#[trigger] s[j] == '.' && s[j + 1]
                == '.') by {
                if j > 0 {
                    assert(t[j - 1] == s[j] && t[j] == s[j + 1]);
                }
            }
        } else {
            assert forall|j: int| 0 <= j < s.len() - 1 implies !(#[trigger] s[j] == '.' && s[j + 1]
                == '.') by {
                if j > 0 {
                    assert(t[j - 1] == s[j] && t[j] == s[j + 1]);
                }
            }
        }
    }
}

proof fn lemma_find_dotdot_at(s: Seq<char>, k: int)
    requires
        0 <= k <= s.len() - 2,
        s[k] == '.' && s[k + 1] == '.',
        forall|j: int| 0 <= j < k ==> !(#[trigger] s[j] == '.' && s[j + 1] == '.'),
    ensures
        find_dotdot(s) == k,
    decreases s.len(),
{
    if k > 0 {
        let t = s.drop_first();
        assert(forall|j: int| 0 <= j < k - 1 ==> !(#[trigger] t[j] == '.' && t[j + 1] == '.'));
        lemma_find_dotdot_at(t, k - 1);
    }
}

/// What parsing a range argument gives: the two bounds of `start..end`,
/// when both sides of the first `..` are plain numbers.
pub open spec fn spec_parse_range(s: Seq<char>) -> Option<(nat, nat)> {
    let k = find_dotdot(s);
    if k < 0 {
        None
    } else {
        let a = s.subrange(0, k);
        let b = s.subrange(k + 2, s.len() as int);
        if a.len() > 0 && all_digits(a) && b.len() > 0 && all_digits(b) {
            Some((digits_val(a), digits_val(b)))
        } else {
            None
        }
    }
}

/// Parses `start..end`. `Ok` exactly when the text around the first `..`
/// is a pair of machine-sized numbers.
pub fn parse_range(s: &str) -> (r: JotResult<(usize, usize)>)
    ensures
        match r {
            Ok((a, b)) => spec_parse_range(s@) == Some((a as nat, b as nat)),
            Err(e) => e is RemoveError && match spec_parse_range(s@) {
                Some((a, b)) => a > usize::MAX || b > usize::MAX,
                None => true,
            },
        },
{
    proof {
        lemma_find_dotdot(s@);
    }
    let n = s.unicode_len();
    if n < 2 {
        proof {
            assert(find_dotdot(s@) < 0);
        }
        return Err(JotError::RemoveError(String::from_str(
            "Invalid range format. Use start..end",
        )));
    }
    let mut k: usize = 0;
    let mut found = false;
    while k < n - 1
        invariant_except_break
            2 <= n,
            0 <= k <= n - 1,
            n == s@.len(),
            forall|j: int| 0 <= j < k ==> !(#[trigger] s@[j] == '.' && s@[j + 1] == '.'),
            !found,
        ensures
            2 <= n,
            0 <= k <= n - 1,
            n == s@.len(),
            forall|j: int| 0 <= j < k ==> !(#[trigger] s@[j] == '.' && s@[j + 1] == '.'),
            found ==> 0 <= k as int <= n - 2 && s@[k as int] == '.' && s@[k + 1] == '.',
            !found ==> k == n - 1,
        decreases n - k,
    {
        if s.get_char(k) == '.' && s.get_char(k + 1) == '.' {
            found = true;
            break ;
        }
        k += 1;
    }
    if !found {
        proof {
            lemma_find_dotdot(s@);
            if find_dotdot(s@) >= 0 {
                assert(s@[find_dotdot(s@)] == '.' && s@[find_dotdot(s@) + 1] == '.');
                assert(false);
            }
        }
        return Err(JotError::RemoveError(String::from_str(
            "Invalid range format. Use start..end",
        )));
    }
    proof {
        lemma_find_dotdot_at(s@, k as int);
    }
    let left = s.substring_char(0, k);
    let right = s.substring_char(k + 2, n);
    let a = match parse_usize(left) {
        Some(v) => v,
        None => {
            proof {
                if all_digits(left@) && left@.len() > 0 {
                    lemma_digits_val_bound(left@);
                }
            }
            return Err(JotError::RemoveError(String::from_str("Invalid range start")));
        },
    };
    let b = match parse_usize(right) {
        Some(v) => v,
        None => {
            proof {
                if all_digits(right@) && right@.len() > 0 {
                    lemma_digits_val_bound(right@);
                }
            }
            return Err(JotError::RemoveError(String::from_str("Invalid range end")));
        },
    };
    Ok((a, b))
}

/// The ids `start..=end`, ascending; empty when `start > end`.
pub open spec fn spec_range_ids(a: nat, b: nat) -> Seq<nat> {
    if a > b {
        Seq::empty()
    } else {
        Seq::new((b - a + 1) as nat, |i: int| (a + i) as nat)
    }
}

/// Collects the ids `start..=end` into a list.
pub fn range_ids(a: usize, b: usize) -> (r: Vec<usize>)
    ensures
        r@.map_values(|x: usize| x as nat) == spec_range_ids(a as nat, b as nat),
{
    let mut out: Vec<usize> = Vec::new();
    if a > b {
        proof {
            assert(out@.map_values(|x: usize| x as nat) =~= spec_range_ids(a as nat, b as nat));
        }
        return out;
    }
    let mut i: usize = a;
    while i < b
        invariant
            a <= i <= b,
            out@.len() == i - a,
            forall|j: int| 0 <= j < out@.len() ==> out@[j] == a + j,
        decreases b - i,
    {
        out.push(i);
        i += 1;
    }
    out.push(b);
    proof {
        assert(out@.map_values(|x: usize| x as nat) =~= spec_range_ids(a as nat, b as nat));
    }
    out
}

/// The ids of the entries whose date lies in the inclusive range, in
/// journal order.
pub open spec fn spec_ids_in_date_range(es: Seq<EntryV>, from: Option<Date>, to: Option<Date>)
    -> Seq<nat>
    decreases es.len(),
{
    if es.len() == 0 {
        Seq::empty()
    } else {
        let rest = spec_ids_in_date_range(es.drop_first(), from, to);
        if spec_date_in_range(es[0].date, from, to) {
            seq![es[0].id] + rest
        } else {
            rest
        }
    }
}

/// Collects the ids of the entries dated within the range.
pub fn ids_in_date_range(journal: &Journal, from: &Option<Date>, to: &Option<Date>) -> (r: Vec<
    usize,
>)
    ensures
        r@.map_values(|x: usize| x as nat) == spec_ids_in_date_range(
            journal@.entries,
            *from,
            *to,
        ),
{
    let es = journal.entries();
    let n = es.len();
    let ghost all = journal@.entries;
    let mut out: Vec<usize> = Vec::new();
    proof {
        assert(all.subrange(0, n as int) =~= all);
        assert(out@.map_values(|x: usize| x as nat) + spec_ids_in_date_range(all, *from, *to)
            =~= spec_ids_in_date_range(all, *from, *to));
    }
    let mut i: usize = 0;
    while i < n
        invariant
            0 <= i <= n,
            n == es@.len(),
            es.deep_view() == all,
            all.len() == n,
            spec_ids_in_date_range(all, *from, *to) == out@.map_values(|x: usize| x as nat)
                + spec_ids_in_date_range(all.subrange(i as int, n as int), *from, *to),
        decreases n - i,
    {
        let ghost u = all.subrange(i as int, n as int);
        proof {
            assert(u[0] == all[i as int]);
            assert(u.drop_first() =~= all.subrange(i + 1, n as int));
        }
        let ghost before = out@;
        if check_date_range(&es[i].date, from, to) {
            assert(es[i as int]@ == all[i as int]);
            out.push(es[i].id);
            proof {
                assert(out@.map_values(|x: usize| x as nat) =~= before.map_values(
                    |x: usize| x as nat,
                ).push(all[i as int].id));
                assert(out@.map_values(|x: usize| x as nat) + spec_ids_in_date_range(
                    u.drop_first(),
                    *from,
                    *to,
                ) =~= before.map_values(|x: usize| x as nat) + spec_ids_in_date_range(
                    u,
                    *from,
                    *to,
                ));
            }
        } else {
            assert(es[i as int]@ == all[i as int]);
        }
        i += 1;
    }
    proof {
        assert(all.subrange(n as int, n as int) =~= Seq::<EntryV>::empty());
        assert(out@.map_values(|x: usize| x as nat) + spec_ids_in_date_range(
            all.subrange(n as int, n as int),
            *from,
            *to,
        ) =~= out@.map_values(|x: usize| x as nat));
    }
    out
}

/// Strictly ascending: sorted with no duplicates.
pub open spec fn sorted_unique(s: Seq<usize>) -> bool {
    forall|i: int, j: int| 0 <= i < j < s.len() ==> s[i] < s[j]
}

/// Weakly ascending.
pub open spec fn sorted_ids(s: Seq<usize>) -> bool {
    forall|i: int, j: int| 0 <= i < j < s.len() ==> s[i] <= s[j]
}

/// Sorts ids ascending, keeping the multiset of values.
pub fn sort_ids(input: &Vec<usize>) -> (r: Vec<usize>)
    ensures
        sorted_ids(r@),
        r@.to_multiset() == input@.to_multiset(),
{
    broadcast use vstd::seq_lib::group_to_multiset_ensures;

    let mut remaining = input.clone();
    let mut out: Vec<usize> = Vec::new();
    proof {
        assert(out@.to_multiset().add(remaining@.to_multiset()) =~= input@.to_multiset());
    }
    while remaining.len() > 0
        invariant
            out@.to_multiset().add(remaining@.to_multiset()) == input@.to_multiset(),
            sorted_ids(out@),
            forall|i: int, j: int|
                #![trigger out@[i], remaining@[j]]
                0 <= i < out@.len() && 0 <= j < remaining@.len() ==> out@[i] <= remaining@[j],
        decreases remaining@.len(),
    {
        let mut min_idx: usize = 0;
        let mut t: usize = 1;
        while t < remaining.len()
            invariant
                0 <= min_idx < remaining@.len(),
                min_idx < t <= remaining@.len(),
                forall|j: int| 0 <= j < t ==> remaining@[min_idx as int] <= #[trigger] remaining@[j],
            decreases remaining@.len() - t,
        {
            if remaining[t] < remaining[min_idx] {
                min_idx = t;
            }
            t += 1;
        }
        let ghost before_out = out@;
        let ghost before_rem = remaining@;
        let v = remaining.remove(min_idx);
        out.push(v);
        proof {
            broadcast use vstd::seq_lib::group_to_multiset_ensures;

            assert(out@ == before_out.push(v));
            assert(remaining@ == before_rem.remove(min_idx as int));
            assert(before_out.push(v).to_multiset() =~= before_out.to_multiset().insert(v));
            assert(before_rem.remove(min_idx as int).to_multiset() =~= before_rem.to_multiset()
                .remove(before_rem[min_idx as int]));
            assert(before_rem.to_multiset().contains(v));
            assert(out@.to_multiset().add(remaining@.to_multiset()) =~= input@.to_multiset());
            assert forall|i: int, j: int|
                #![trigger out@[i], remaining@[j]]
                0 <= i < out@.len() && 0 <= j < remaining@.len() implies out@[i]
                <= remaining@[j] by {
                if j < min_idx {
                    assert(remaining@[j] == before_rem[j]);
                } else {
                    assert(remaining@[j] == before_rem[j + 1]);
                }
            }
        }
    }
    proof {
        assert(remaining@.to_multiset() =~= Multiset::<usize>::empty());
        assert(out@.to_multiset() =~= input@.to_multiset());
    }
    out
}

/// Drops adjacent duplicates of a sorted list: the result is strictly
/// ascending and holds the same values.
pub fn dedup_sorted(input: &Vec<usize>) -> (r: Vec<usize>)
    requires
        sorted_ids(input@),
    ensures
        sorted_unique(r@),
        forall|x: usize| r@.contains(x) <==> input@.contains(x),
{
    let mut out: Vec<usize> = Vec::new();
    let n = input.len();
    let mut i: usize = 0;
    while i < n
        invariant
            0 <= i <= n,
            n == input@.len(),
            sorted_ids(input@),
            sorted_unique(out@),
            forall|x: usize| #[trigger] out@.contains(x) ==> input@.subrange(0, i as int).contains(
                x,
            ),
            forall|x: usize| #[trigger] input@.subrange(0, i as int).contains(x) ==> out@.contains(
                x,
            ),
            i == 0 ==> out@.len() == 0,
            i > 0 ==> out@.len() > 0 && out@.last() == input@[i - 1],
        decreases n - i,
    {
        let ghost before = out@;
        let ghost pre = input@.subrange(0, i as int);
        let ghost ext = input@.subrange(0, i + 1);
        proof {
            assert(ext.drop_last() =~= pre);
            assert(ext.last() == input@[i as int]);
        }
        let v = input[i];
        let push_it = if out.len() == 0 {
            true
        } else {
            let last = out[out.len() - 1];
            last != v
        };
        if push_it {
            out.push(v);
            proof {
                assert(out@ == before.push(v));
                assert forall|x: usize| #[trigger] out@.contains(x) implies ext.contains(x) by {
                    let w = choose|w: int| 0 <= w < out@.len() && out@[w] == x;
                    if w < before.len() {
                        assert(before[w] == x);
                        assert(before.contains(x));
                        assert(pre.contains(x));
                        let m = choose|m: int| 0 <= m < pre.len() && pre[m] == x;
                        assert(ext[m] == x);
                    } else {
                        assert(ext[i as int] == x);
                    }
                }
                assert forall|x: usize| #[trigger] ext.contains(x) implies out@.contains(x) by {
                    let w = choose|w: int| 0 <= w < ext.len() && ext[w] == x;
                    if w < i {
                        assert(pre[w] == x);
                        assert(pre.contains(x));
                        assert(before.contains(x));
                        let m = choose|m: int| 0 <= m < before.len() && before[m] == x;
                        assert(out@[m] == x);
                    } else {
                        assert(out@[out@.len() - 1] == x);
                    }
                }
                assert forall|a: int, b: int| 0 <= a < b < out@.len() implies out@[a]
                    < out@[b] by {
                    if b == out@.len() - 1 {
                        assert(out@[a] == before[a]);
                        assert(i > 0);
                        assert(before.last() == input@[i - 1]);
                        assert(input@[i - 1] <= input@[i as int]);
                        assert(before.last() != v);
                        if a < before.len() - 1 {
                            assert(before[a] < before.last());
                        }
                        assert(out@[a] <= before.last());
                        assert(out@[b] == v);
                    }
                }
            }
        } else {
            proof {
                assert(out@.last() == v);
                assert forall|x: usize| #[trigger] ext.contains(x) implies out@.contains(x) by {
                    let w = choose|w: int| 0 <= w < ext.len() && ext[w] == x;
                    if w < i {
                        assert(pre[w] == x);
                        assert(pre.contains(x));
                    } else {
                        assert(x == v);
                        assert(out@[out@.len() - 1] == x);
                    }
                }
                assert forall|x: usize| #[trigger] out@.contains(x) implies ext.contains(x) by {
                    assert(pre.contains(x));
                    let m = choose|m: int| 0 <= m < pre.len() && pre[m] == x;
                    assert(ext[m] == x);
                }
            }
        }
        i += 1;
    }
    proof {
        assert(input@.subrange(0, n as int) =~= input@);
    }
    out
}

/// What removing a list of ids in order does: each id removes the first
/// entry carrying it; the first id found missing stops the batch, and is
/// reported.
pub open spec fn spec_apply_removals(es: Seq<EntryV>, ids: Seq<nat>) -> (Seq<EntryV>, Option<nat>)
    decreases ids.len(),
{
    if ids.len() == 0 {
        (es, None)
    } else {
        match find_first(es, ids[0]) {
            Some(i) => spec_apply_removals(es.remove(i), ids.drop_first()),
            None => (es, Some(ids[0])),
        }
    }
}

/// Removes the listed ids in order, stopping at the first missing one;
/// removals made before the stop stand.
pub fn remove_batch(journal: &mut Journal, ids: &Vec<usize>) -> (r: JotResult<()>)
    ensures
        final(journal)@.path == old(journal)@.path,
        ({
            let outcome = spec_apply_removals(
                old(journal)@.entries,
                ids@.map_values(|x: usize| x as nat),
            );
            &&& final(journal)@.entries == outcome.0
            &&& match r {
                Ok(()) => outcome.1 is None,
                Err(e) => e is RemoveError && outcome.1 is Some,
            }
        }),
{
    let ghost all = ids@.map_values(|x: usize| x as nat);
    let n = ids.len();
    let mut i: usize = 0;
    proof {
        assert(all.skip(0) =~= all);
    }
    while i < n
        invariant
            0 <= i <= n,
            n == ids@.len(),
            all == ids@.map_values(|x: usize| x as nat),
            all.len() == n,
            journal@.path == old(journal)@.path,
            spec_apply_removals(old(journal)@.entries, all) == spec_apply_removals(
                journal@.entries,
                all.skip(i as int),
            ),
        decreases n - i,
    {
        let ghost u = all.skip(i as int);
        proof {
            assert(u[0] == all[i as int]);
            assert(u.drop_first() =~= all.skip(i + 1));
        }
        let id = ids[i];
        match journal.remove_entry(id) {
            Some(_) => {},
            None => {
                let mut msg = String::from_str("Entry with ID ");
                let d = crate::num::fmt_usize(id);
                msg.append(d.as_str());
                msg.append(" not found");
                return Err(JotError::RemoveError(msg));
            },
        }
        i += 1;
    }
    proof {
        assert(all.skip(n as int) =~= Seq::<nat>::empty());
    }
    Ok(())
}

} // verus!

verus! {

/// Strictly ascending over the mathematical ids.
pub open spec fn sorted_unique_nats(s: Seq<nat>) -> bool {
    forall|i: int, j: int| 0 <= i < j < s.len() ==> s[i] < s[j]
}

/// Everything the arguments select, in order: the single id, the id
/// range, and the ids of entries dated within the date bounds (when one
/// was given).
pub open spec fn spec_planned_ids(
    es: Seq<EntryV>,
    id: Option<usize>,
    range: Option<(nat, nat)>,
    fromd: Option<Date>,
    tod: Option<Date>,
) -> Seq<nat> {
    (match id {
        Some(i) => seq![i as nat],
        None => Seq::<nat>::empty(),
    }) + (match range {
        Some((a, b)) => spec_range_ids(a, b),
        None => Seq::<nat>::empty(),
    }) + (if fromd is Some || tod is Some {
        spec_ids_in_date_range(es, fromd, tod)
    } else {
        Seq::<nat>::empty()
    })
}

/// Removes what the arguments select. The selected ids are removed in
/// ascending order, once each; the first missing id aborts the batch with
/// an error, leaving the removals already made applied. A malformed range
/// or date, or an empty selection, is an error that changes nothing.
#[verifier::rlimit(100)]
pub fn execute(journal: &mut Journal, args: &RemoveArgs) -> (r: JotResult<Vec<usize>>)
    ensures
        final(journal)@.path == old(journal)@.path,
        ({
            let fromd = match args.from {
                Some(f) => spec_parse_date(f@),
                None => None,
            };
            let tod = match args.to {
                Some(t) => spec_parse_date(t@),
                None => None,
            };
            let rngv = match args.range {
                Some(rs) => spec_parse_range(rs@),
                None => None,
            };
            let range_bad = args.range is Some && (rngv is None || (rngv->0).0 > usize::MAX
                || (rngv->0).1 > usize::MAX);
            let from_bad = args.from is Some && fromd is None;
            let to_bad = args.to is Some && tod is None;
            let plan = spec_planned_ids(old(journal)@.entries, args.id, rngv, fromd, tod);
            match r {
                Ok(removed) => {
                    &&& !range_bad
                    &&& !from_bad
                    &&& !to_bad
                    &&& plan.len() > 0
                    &&& sorted_unique(removed@)
                    &&& forall|x: usize| #[trigger] removed@.contains(x) <==> plan.contains(
                        x as nat,
                    )
                    &&& spec_apply_removals(
                        old(journal)@.entries,
                        removed@.map_values(|x: usize| x as nat),
                    ) == (final(journal)@.entries, None::<nat>)
                },
                Err(e) => {
                    &&& e is RemoveError
                    &&& ((range_bad || from_bad || to_bad || plan.len() == 0) ==> final(journal)@
                        == old(journal)@)
                    &&& (!range_bad && !from_bad && !to_bad && plan.len() > 0 ==> exists|
                        ids: Seq<nat>,
                    |
                        {
                            &&& #[trigger] sorted_unique_nats(ids)
                            &&& (forall|x: nat| #[trigger] ids.contains(x) <==> plan.contains(x))
                            &&& spec_apply_removals(old(journal)@.entries, ids).1 is Some
                            &&& final(journal)@.entries == spec_apply_removals(
                                old(journal)@.entries,
                                ids,
                            ).0
                        })
                },
            }
        }),
{
    broadcast use vstd::seq_lib::group_to_multiset_ensures;

    let ghost plan0 = spec_planned_ids(
        old(journal)@.entries,
        args.id,
        match &args.range {
            Some(rs) => spec_parse_range(rs@),
            None => None,
        },
        match &args.from {
            Some(f) => spec_parse_date(f@),
            None => None,
        },
        match &args.to {
            Some(t) => spec_parse_date(t@),
            None => None,
        },
    );
    let mut to_remove: Vec<usize> = Vec::new();
    match args.id {
        Some(i) => {
            to_remove.push(i);
        },
        None => {},
    }
    match &args.range {
        Some(rs) => {
            let (a, b) = match parse_range(rs.as_str()) {
                Ok(p) => p,
                Err(e) => {
                    return Err(e);
                },
            };
            let mut ids = range_ids(a, b);
            to_remove.append(&mut ids);
        },
        None => {},
    }
    let fromd = match &args.from {
        Some(f) => match parse_date(f.as_str()) {
            Some(d) => Some(d),
            None => {
                return Err(
                    JotError::RemoveError(String::from_str("Invalid date format. Use YYYY-MM-DD")),
                );
            },
        },
        None => None,
    };
    let tod = match &args.to {
        Some(t) => match parse_date(t.as_str()) {
            Some(d) => Some(d),
            None => {
                return Err(
                    JotError::RemoveError(String::from_str("Invalid date format. Use YYYY-MM-DD")),
                );
            },
        },
        None => None,
    };
    if fromd.is_some() || tod.is_some() {
        let mut ids2 = ids_in_date_range(journal, &fromd, &tod);
        to_remove.append(&mut ids2);
    }
    proof {
        assert(to_remove@.map_values(|x: usize| x as nat) =~= plan0);
    }
    if to_remove.len() == 0 {
        proof {
            assert(plan0.len() == 0);
        }
        return Err(JotError::RemoveError(String::from_str("No entries to remove")));
    }
    let sorted = sort_ids(&to_remove);
    let unique = dedup_sorted(&sorted);
    proof {
        assert forall|x: usize| #[trigger] unique@.contains(x) <==> plan0.contains(x as nat) by {
            assert(unique@.contains(x) <==> sorted@.contains(x));
            assert(sorted@.contains(x) <==> sorted@.to_multiset().count(x) > 0);
            assert(to_remove@.contains(x) <==> to_remove@.to_multiset().count(x) > 0);
            assert(sorted@.contains(x) <==> to_remove@.contains(x));
            if to_remove@.contains(x) {
                let w = choose|w: int| 0 <= w < to_remove@.len() && to_remove@[w] == x;
                assert(plan0[w] == x as nat);
            }
            if plan0.contains(x as nat) {
                let w = choose|w: int| 0 <= w < plan0.len() && plan0[w] == x as nat;
                assert(to_remove@[w] as nat == x as nat);
                assert(to_remove@[w] == x);
            }
        }
    }
    let ghost unats = unique@.map_values(|x: usize| x as nat);
    proof {
        assert(sorted_unique_nats(unats)) by {
            assert(forall|i: int| 0 <= i < unique@.len() ==> unats[i] == #[trigger] unique@[i]
                as nat);
        }
        assert forall|x: nat| #[trigger] unats.contains(x) <==> plan0.contains(x) by {
            if unats.contains(x) {
                let w = choose|w: int| 0 <= w < unats.len() && unats[w] == x;
                assert(unique@[w] as nat == x);
                assert(unique@.contains(unique@[w]));
            }
            if plan0.contains(x) {
                if x <= usize::MAX {
                    let w = choose|w: int| 0 <= w < plan0.len() && plan0[w] == x;
                    assert(to_remove@[w] as nat == x);
                    assert(unique@.contains(to_remove@[w]));
                    let m = choose|m: int| 0 <= m < unique@.len() && unique@[m] == to_remove@[w];
                    assert(unats[m] == x);
                } else {
                    let w = choose|w: int| 0 <= w < plan0.len() && plan0[w] == x;
                    assert(to_remove@[w] as nat == x);
                    assert(false);
                }
            }
        }
        assert(plan0.len() > 0);
        assert(plan0.contains(plan0[0]));
    }
    match remove_batch(journal, &unique) {
        Ok(()) => Ok(unique),
        Err(e) => {
            proof {
                assert(exists|ids: Seq<nat>|
                    {
                        &&& #[trigger] sorted_unique_nats(ids)
                        &&& (forall|x: nat| #[trigger] ids.contains(x) <==> plan0.contains(x))
                        &&& spec_apply_removals(old(journal)@.entries, ids).1 is Some
                        &&& final(journal)@.entries == spec_apply_removals(
                            old(journal)@.entries,
                            ids,
                        ).0
                    }) by {
                    assert(sorted_unique_nats(unats));
                    assert(spec_apply_removals(old(journal)@.entries, unats).1 is Some);
                }
            }
            Err(e)
        },
    }
}

} // verus!

verus! {

/// Filtering respects pointwise equivalence of the predicates on the
/// sequence's elements.
proof fn lemma_filter_congruence(
    s: Seq<EntryV>,
    p: spec_fn(EntryV) -> bool,
    q: spec_fn(EntryV) -> bool,
)
    requires
        forall|j: int| 0 <= j < s.len() ==> p(#[trigger] s[j]) == q(s[j]),
    ensures
        s.filter(p) == s.filter(q),
    decreases s.len(),
{
    reveal(Seq::filter);
    if s.len() > 0 {
        let t = s.drop_last();
        assert(forall|j: int| 0 <= j < t.len() ==> t[j] == #[trigger] s[j]);
        lemma_filter_congruence(t, p, q);
        assert(s.last() == s[s.len() - 1]);
    }
}

/// Removing an element the filter drops anyway leaves the filter result
/// unchanged.
proof fn lemma_filter_remove_dropped(s: Seq<EntryV>, i: int, p: spec_fn(EntryV) -> bool)
    requires
        0 <= i < s.len(),
        !p(s[i]),
    ensures
        s.remove(i).filter(p) == s.filter(p),
    decreases s.len(),
{
    reveal(Seq::filter);
    if i == s.len() - 1 {
        assert(s.remove(i) =~= s.drop_last());
        assert(s.last() == s[i]);
    } else {
        let t = s.drop_last();
        assert(t[i] == s[i]);
        lemma_filter_remove_dropped(t, i, p);
        assert(s.remove(i).drop_last() =~= t.remove(i));
        assert(s.remove(i).last() == s.last());
        assert(s.remove(i).len() > 0);
    }
}

/// A filter whose predicate holds of every element keeps the sequence.
proof fn lemma_filter_keeps_all(s: Seq<EntryV>, p: spec_fn(EntryV) -> bool)
    requires
        forall|j: int| 0 <= j < s.len() ==> p(#[trigger] s[j]),
    ensures
        s.filter(p) == s,
    decreases s.len(),
{
    reveal(Seq::filter);
    if s.len() > 0 {
        let t = s.drop_last();
        assert(forall|j: int| 0 <= j < t.len() ==> t[j] == #[trigger] s[j]);
        lemma_filter_keeps_all(t, p);
        assert(s.last() == s[s.len() - 1]);
        assert(t.push(s.last()) =~= s);
    }
}

/// Some entry carries the id.
pub open spec fn id_present(es: Seq<EntryV>, x: nat) -> bool {
    exists|j: int| 0 <= j < es.len() && (#[trigger] es[j]).id == x
}

/// Membership in a nonempty id list splits into its head and its tail.
proof fn lemma_ids_contains_split(ids: Seq<nat>, x: nat)
    requires
        ids.len() > 0,
    ensures
        ids.contains(x) <==> (x == ids[0] || ids.drop_first().contains(x)),
{
    let rest = ids.drop_first();
    if ids.contains(x) {
        let w = choose|w: int| 0 <= w < ids.len() && ids[w] == x;
        if w > 0 {
            assert(rest[w - 1] == x);
        }
    }
    if rest.contains(x) {
        let w = choose|w: int| 0 <= w < rest.len() && rest[w] == x;
        assert(ids[w + 1] == x);
    }
}

/// After removing the entry at `i`, every id another entry carried is
/// still present.
proof fn lemma_presence_survives_remove(es: Seq<EntryV>, i: int, x: nat)
    requires
        0 <= i < es.len(),
        id_present(es, x),
        es[i].id != x,
    ensures
        id_present(es.remove(i), x),
{
    let es2 = es.remove(i);
    let j0 = choose|j: int| 0 <= j < es.len() && (#[trigger] es[j]).id == x;
    if j0 < i {
        assert(es2[j0] == es[j0]);
    } else {
        assert(es2[j0 - 1] == es[j0]);
    }
}

/// Removing a batch of distinct ids, each carried by an entry of a
/// journal whose live ids are unique, succeeds: the removal fold ends
/// with no missing id, and what remains is exactly the entries whose id
/// was not listed, in their original order and untouched. Together with
/// the contract of `execute` (the removed ids enumerate the selection),
/// this is the successful half of the batch-removal behaviour: a range
/// whose ids all exist removes those entries and no others.
pub proof fn lemma_removals_of_present_ids(es: Seq<EntryV>, ids: Seq<nat>)
    requires
        forall|i: int, j: int| 0 <= i < j < es.len() ==> (#[trigger] es[i]).id != (
        #[trigger] es[j]).id,
        forall|i: int, j: int| 0 <= i < j < ids.len() ==> ids[i] != ids[j],
        forall|k: int| 0 <= k < ids.len() ==> id_present(es, #[trigger] ids[k]),
    ensures
        spec_apply_removals(es, ids).1 is None,
        spec_apply_removals(es, ids).0 == es.filter(|e: EntryV| !ids.contains(e.id)),
    decreases ids.len(),
{
    let p_ids = |e: EntryV| !ids.contains(e.id);
    if ids.len() == 0 {
        assert(forall|j: int| 0 <= j < es.len() ==> p_ids(#[trigger] es[j]));
        lemma_filter_keeps_all(es, p_ids);
    } else {
        let a = ids[0];
        assert(id_present(es, a));
        crate::journal::lemma_find_first(es, a);
        if find_first(es, a) is None {
            let j0 = choose|j: int| 0 <= j < es.len() && (#[trigger] es[j]).id == a;
            assert(false);
        }
        let i = find_first(es, a)->0;
        let es2 = es.remove(i);
        let rest = ids.drop_first();
        let p_rest = |e: EntryV| !rest.contains(e.id);
        assert(forall|m: int| 0 <= m < rest.len() ==> rest[m] == #[trigger] ids[m + 1]);
        assert forall|x: int, y: int| 0 <= x < y < es2.len() implies (#[trigger] es2[x]).id != (
        #[trigger] es2[y]).id by {
            let x0: int = if x < i {
                x
            } else {
                x + 1
            };
            let y0: int = if y < i {
                y
            } else {
                y + 1
            };
            assert(es2[x] == es[x0] && es2[y] == es[y0]);
        }
        assert forall|k: int| 0 <= k < rest.len() implies id_present(es2, #[trigger] rest[k]) by {
            assert(rest[k] == ids[k + 1]);
            assert(id_present(es, ids[k + 1]));
            assert(ids[k + 1] != a);
            lemma_presence_survives_remove(es, i, ids[k + 1]);
        }
        lemma_removals_of_present_ids(es2, rest);
        assert(spec_apply_removals(es, ids) == spec_apply_removals(es2, rest));
        assert forall|j: int| 0 <= j < es2.len() implies p_rest(#[trigger] es2[j]) == p_ids(
            es2[j],
        ) by {
            let j0: int = if j < i {
                j
            } else {
                j + 1
            };
            assert(es2[j] == es[j0]);
            assert(es2[j].id != a);
            lemma_ids_contains_split(ids, es2[j].id);
        }
        lemma_filter_congruence(es2, p_rest, p_ids);
        assert(!p_ids(es[i])) by {
            assert(ids[0] == es[i].id);
        }
        lemma_filter_remove_dropped(es, i, p_ids);
    }
}

/// Removing a batch of distinct ids stops at the first missing one: the
/// fold reports that id, the removals made before it stand (exactly the
/// entries carrying the earlier ids are gone), and nothing else changes.
/// Together with the contract of `execute`, this is the failing half of
/// the batch-removal behaviour: the batch is not transactional.
pub proof fn lemma_removals_stop_at_missing(es: Seq<EntryV>, ids: Seq<nat>, k: int)
    requires
        forall|i: int, j: int| 0 <= i < j < es.len() ==> (#[trigger] es[i]).id != (
        #[trigger] es[j]).id,
        forall|i: int, j: int| 0 <= i < j < ids.len() ==> ids[i] != ids[j],
        0 <= k < ids.len(),
        forall|m: int| 0 <= m < k ==> id_present(es, #[trigger] ids[m]),
        !id_present(es, ids[k]),
    ensures
        spec_apply_removals(es, ids).1 == Some(ids[k]),
        spec_apply_removals(es, ids).0 == es.filter(
            |e: EntryV| !ids.subrange(0, k).contains(e.id),
        ),
    decreases k,
{
    let pre = ids.subrange(0, k);
    let p_pre = |e: EntryV| !pre.contains(e.id);
    if k == 0 {
        crate::journal::lemma_find_first(es, ids[0]);
        if find_first(es, ids[0]) is Some {
            let i = find_first(es, ids[0])->0;
            assert(es[i].id == ids[0]);
            assert(id_present(es, ids[0]));
            assert(false);
        }
        assert(spec_apply_removals(es, ids) == (es, Some(ids[0])));
        assert(forall|j: int| 0 <= j < es.len() ==> p_pre(#[trigger] es[j]));
        lemma_filter_keeps_all(es, p_pre);
    } else {
        let a = ids[0];
        assert(id_present(es, a)) by {
            assert(0 <= 0 < k);
        }
        crate::journal::lemma_find_first(es, a);
        if find_first(es, a) is None {
            let j0 = choose|j: int| 0 <= j < es.len() && (#[trigger] es[j]).id == a;
            assert(false);
        }
        let i = find_first(es, a)->0;
        let es2 = es.remove(i);
        let rest = ids.drop_first();
        let pre2 = rest.subrange(0, k - 1);
        let p_pre2 = |e: EntryV| !pre2.contains(e.id);
        assert(forall|m: int| 0 <= m < rest.len() ==> rest[m] == #[trigger] ids[m + 1]);
        assert forall|x: int, y: int| 0 <= x < y < es2.len() implies (#[trigger] es2[x]).id != (
        #[trigger] es2[y]).id by {
            let x0: int = if x < i {
                x
            } else {
                x + 1
            };
            let y0: int = if y < i {
                y
            } else {
                y + 1
            };
            assert(es2[x] == es[x0] && es2[y] == es[y0]);
        }
        assert forall|m: int| 0 <= m < k - 1 implies id_present(es2, #[trigger] rest[m]) by {
            assert(rest[m] == ids[m + 1]);
            assert(0 <= m + 1 < k);
            assert(id_present(es, ids[m + 1]));
            assert(ids[m + 1] != a);
            lemma_presence_survives_remove(es, i, ids[m + 1]);
        }
        assert(!id_present(es2, rest[k - 1])) by {
            assert(rest[k - 1] == ids[k]);
            if id_present(es2, ids[k]) {
                let j0 = choose|j: int|
                    0 <= j < es2.len() && (#[trigger] es2[j]).id == ids[k];
                let j1: int = if j0 < i {
                    j0
                } else {
                    j0 + 1
                };
                assert(es2[j0] == es[j1]);
                assert(id_present(es, ids[k]));
                assert(false);
            }
        }
        lemma_removals_stop_at_missing(es2, rest, k - 1);
        assert(spec_apply_removals(es, ids) == spec_apply_removals(es2, rest));
        assert(rest[k - 1] == ids[k]);
        assert forall|j: int| 0 <= j < es2.len() implies p_pre2(#[trigger] es2[j]) == p_pre(
            es2[j],
        ) by {
            let j0: int = if j < i {
                j
            } else {
                j + 1
            };
            assert(es2[j] == es[j0]);
            assert(es2[j].id != a);
            assert(pre.len() > 0 && pre[0] == a);
            assert(pre.drop_first() =~= pre2);
            lemma_ids_contains_split(pre, es2[j].id);
        }
        lemma_filter_congruence(es2, p_pre2, p_pre);
        assert(!p_pre(es[i])) by {
            assert(pre[0] == es[i].id);
        }
        lemma_filter_remove_dropped(es, i, p_pre);
    }
}

} // verus!

verus! {

/// There is exactly one strictly ascending sequence enumerating a given
/// membership: two such sequences with the same members are equal. This
/// pins the witness in the error branch of `execute`'s contract — the
/// processed ids are the one ascending enumeration of the selection — so
/// the final journal state there is fully determined.
pub proof fn lemma_ascending_enumeration_unique(s1: Seq<nat>, s2: Seq<nat>)
    requires
        sorted_unique_nats(s1),
        sorted_unique_nats(s2),
        forall|x: nat| #[trigger] s1.contains(x) <==> s2.contains(x),
    ensures
        s1 == s2,
    decreases s1.len(),
{
    if s1.len() == 0 {
        if s2.len() > 0 {
            assert(!s1.contains(s2[0]));
            assert(s2.contains(s2[0]));
            assert(false);
        }
        assert(s1 =~= s2);
    } else {
        if s2.len() == 0 {
            assert(s1.contains(s1[0]));
            assert(false);
        }
        assert(s1.contains(s1[0]));
        assert(s2.contains(s1[0]));
        let w2 = choose|w: int| 0 <= w < s2.len() && s2[w] == s1[0];
        assert(s2.contains(s2[0]));
        assert(s1.contains(s2[0]));
        let w1 = choose|w: int| 0 <= w < s1.len() && s1[w] == s2[0];
        assert(s1[0] == s2[0]) by {
            if w2 > 0 {
                assert(s2[0] < s2[w2]);
            }
            if w1 > 0 {
                assert(s1[0] < s1[w1]);
            }
        }
        let t1 = s1.drop_first();
        let t2 = s2.drop_first();
        assert(forall|m: int| 0 <= m < t1.len() ==> #[trigger] t1[m] == s1[m + 1]);
        assert(forall|m: int| 0 <= m < t2.len() ==> #[trigger] t2[m] == s2[m + 1]);
        assert forall|x: nat| #[trigger] t1.contains(x) <==> t2.contains(x) by {
            if t1.contains(x) {
                let w = choose|w: int| 0 <= w < t1.len() && t1[w] == x;
                assert(s1[w + 1] == x);
                assert(s1[0] < x);
                assert(s1.contains(x));
                assert(s2.contains(x));
                let v = choose|v: int| 0 <= v < s2.len() && s2[v] == x;
                assert(v > 0);
                assert(t2[v - 1] == x);
            }
            if t2.contains(x) {
                let w = choose|w: int| 0 <= w < t2.len() && t2[w] == x;
                assert(s2[w + 1] == x);
                assert(s2[0] < x);
                assert(s2.contains(x));
                assert(s1.contains(x));
                let v = choose|v: int| 0 <= v < s1.len() && s1[v] == x;
                assert(v > 0);
                assert(t1[v - 1] == x);
            }
        }
        lemma_ascending_enumeration_unique(t1, t2);
        assert(s1.len() == s2.len());
        assert forall|i: int| 0 <= i < s1.len() implies s1[i] == s2[i] by {
            if i > 0 {
                assert(t1[i - 1] == s1[i]);
                assert(t2[i - 1] == s2[i]);
            }
        }
        assert(s1 =~= s2);
    }
}

} // verus!
