//! Viewing entries: one by id, the most recent, or all entries filtered
//! by tags and a date range.

use vstd::prelude::*;
use vstd::string::*;
use crate::config::JournalConfig;
use crate::date::{Date, spec_parse_date, parse_date};
use crate::entry::{Entry, EntryV, tag_names};
use crate::error::{JotError, JotResult};
use crate::journal::{Journal, find_first};
use crate::matching::{
    TagMatch, spec_tags_match, spec_date_in_range, check_date_range, do_tags_match,
};
use crate::render::{
    spec_format_entry, spec_single_entry_text, format_entry, format_single_entry,
};
use crate::commands::search::tags_of_names;
use crate::num::{spec_dec_digits, fmt_usize};

verus! {

/// The parameters of the view command.
pub struct ViewArgs {
    pub id: Option<usize>,
    pub from: Option<String>,
    pub to: Option<String>,
    pub tags: Vec<String>,
    pub recent: bool,
    pub all: bool,
}

/// Whether one entry passes the view filter: dated in range, tags
/// matching.
pub open spec fn spec_view_matches(
    e: EntryV,
    qtags: Seq<Seq<char>>,
    fromd: Option<Date>,
    tod: Option<Date>,
    all: bool,
) -> bool {
    &&& spec_date_in_range(e.date, fromd, tod)
    &&& spec_tags_match(
        qtags,
        e.tags,
        if all {
            TagMatch::All
        } else {
            TagMatch::Any
        },
    )
}

/// The entries passing the view filter, in journal order.
pub open spec fn spec_view_filter(
    es: Seq<EntryV>,
    qtags: Seq<Seq<char>>,
    fromd: Option<Date>,
    tod: Option<Date>,
    all: bool,
) -> Seq<EntryV>
    decreases es.len(),
{
    if es.len() == 0 {
        Seq::empty()
    } else {
        let rest = spec_view_filter(es.drop_first(), qtags, fromd, tod, all);
        if spec_view_matches(es[0], qtags, fromd, tod, all) {
            seq![es[0]] + rest
        } else {
            rest
        }
    }
}

/// Filters entries by date range and tags. A malformed date bound is an
/// error.
pub fn filter_entries(entries: &Vec<Entry>, args: &ViewArgs) -> (r: JotResult<Vec<Entry>>)
    ensures
        ({
            let fromd = match args.from {
                Some(f) => spec_parse_date(f@),
                None => None,
            };
            let tod = match args.to {
                Some(t) => spec_parse_date(t@),
                None => None,
            };
            match r {
                Ok(found) => {
                    &&& (args.from is Some ==> fromd is Some)
                    &&& (args.to is Some ==> tod is Some)
                    &&& found.deep_view() == spec_view_filter(
                        entries.deep_view(),
                        args.tags.deep_view(),
                        if args.from is Some {
                            fromd
                        } else {
                            None
                        },
                        if args.to is Some {
                            tod
                        } else {
                            None
                        },
                        args.all,
                    )
                },
                Err(e) => {
                    &&& e is CommandError
                    &&& ((args.from is Some && fromd is None) || (args.to is Some && tod is None))
                },
            }
        }),
{
    let fromd = match &args.from {
        Some(f) => match parse_date(f.as_str()) {
            Some(d) => Some(d),
            None => {
                return Err(
                    JotError::CommandError(
                        String::from_str("Invalid date format. Use YYYY-MM-DD"),
                    ),
                );
            },
        },
        None => None,
    };
    let tod = match &args.to {
        Some(t) => match parse_date(t.as_str()) {
            Some(d) => Some(d),
            None => {
                return Err(
                    JotError::CommandError(
                        String::from_str("Invalid date format. Use YYYY-MM-DD"),
                    ),
                );
            },
        },
        None => None,
    };
    let qtags = tags_of_names(&args.tags);
    let ghost all_es = entries.deep_view();
    let n = entries.len();
    let mut out: Vec<Entry> = Vec::new();
    proof {
        assert(all_es.subrange(0, n as int) =~= all_es);
        assert(out.deep_view() + spec_view_filter(
            all_es,
            args.tags.deep_view(),
            fromd,
            tod,
            args.all,
        ) =~= spec_view_filter(all_es, args.tags.deep_view(), fromd, tod, args.all));
    }
    let mut i: usize = 0;
    while i < n
        invariant
            0 <= i <= n,
            n == entries@.len(),
            entries.deep_view() == all_es,
            all_es.len() == n,
            tag_names(qtags@) == args.tags.deep_view(),
            spec_view_filter(all_es, args.tags.deep_view(), fromd, tod, args.all)
                == out.deep_view() + spec_view_filter(
                all_es.subrange(i as int, n as int),
                args.tags.deep_view(),
                fromd,
                tod,
                args.all,
            ),
        decreases n - i,
    {
        let ghost u = all_es.subrange(i as int, n as int);
        proof {
            assert(u[0] == all_es[i as int]);
            assert(u.drop_first() =~= all_es.subrange(i + 1, n as int));
            assert(entries[i as int]@ == all_es[i as int]);
        }
        let e = &entries[i];
        let date_ok = check_date_range(&e.date, &fromd, &tod);
        let mode = if args.all {
            TagMatch::All
        } else {
            TagMatch::Any
        };
        let tags_ok = do_tags_match(qtags.as_slice(), e.tags.as_slice(), mode);
        let ghost before = out.deep_view();
        if date_ok && tags_ok {
            out.push(e.duplicate());
            proof {
                assert(out.deep_view() =~~= before.push(all_es[i as int]));
                assert(out.deep_view() =~~= before + seq![all_es[i as int]]);
            }
        } else {
            proof {
                assert(!spec_view_matches(
                    all_es[i as int],
                    args.tags.deep_view(),
                    fromd,
                    tod,
                    args.all,
                ));
            }
        }
        i += 1;
    }
    proof {
        assert(all_es.subrange(n as int, n as int) =~= Seq::<EntryV>::empty());
    }
    Ok(out)
}

/// The text shown when an id is not found.
pub open spec fn spec_not_found_text(id: nat) -> Seq<char> {
    "Entry with id "@ + spec_dec_digits(id) + " not found"@
}

/// Renders the first entry carrying `id` as its standalone block, or the
/// not-found line.
pub fn view_by_id(journal: &Journal, id: usize) -> (r: String)
    ensures
        match find_first(journal@.entries, id as nat) {
            Some(i) => r@ == spec_single_entry_text(journal@.entries[i]),
            None => r@ == spec_not_found_text(id as nat),
        },
{
    match journal.get_entry(id) {
        Some(e) => format_single_entry(e),
        None => {
            let mut msg = String::from_str("Entry with id ");
            let d = fmt_usize(id);
            msg.append(d.as_str());
            msg.append(" not found");
            proof {
                assert(msg@ =~= spec_not_found_text(id as nat));
            }
            msg
        },
    }
}

/// Runs the view command: one entry by id, the most recent entry, or the
/// filtered list, each rendered as lines to print. Naming both an id and
/// `--recent` is an error.
pub fn execute(journal: &Journal, args: &ViewArgs, config: &JournalConfig) -> (r: JotResult<
    Vec<String>,
>)
    ensures
        ({
            let fromd = match args.from {
                Some(f) => spec_parse_date(f@),
                None => None,
            };
            let tod = match args.to {
                Some(t) => spec_parse_date(t@),
                None => None,
            };
            match r {
                Ok(lines) => {
                    &&& (args.id is Some ==> !args.recent && lines@.len() == 1 && lines@[0]@
                        == (match find_first(journal@.entries, args.id->0 as nat) {
                        Some(i) => spec_single_entry_text(journal@.entries[i]),
                        None => spec_not_found_text(args.id->0 as nat),
                    }))
                    &&& (args.id is None && args.recent ==> {
                        let es = journal@.entries;
                        if es.len() == 0 {
                            lines@.len() == 0
                        } else {
                            lines@.len() == 1 && lines@[0]@ == spec_format_entry(
                                es.last(),
                                config.show_time,
                            )
                        }
                    })
                    &&& (args.id is None && !args.recent ==> {
                        let found = spec_view_filter(
                            journal@.entries,
                            args.tags.deep_view(),
                            if args.from is Some {
                                fromd
                            } else {
                                None
                            },
                            if args.to is Some {
                                tod
                            } else {
                                None
                            },
                            args.all,
                        );
                        lines@.len() == found.len() && forall|j: int|
                            0 <= j < found.len() ==> (#[trigger] lines@[j])@ == spec_format_entry(
                                found[j],
                                config.show_time,
                            )
                    })
                },
                Err(e) => {
                    &&& e is CommandError
                    &&& (args.id is Some && args.recent) || (args.id is None && !args.recent && (
                    (args.from is Some && fromd is None) || (args.to is Some && tod is None)))
                },
            }
        }),
{
    match args.id {
        Some(id) => {
            if args.recent {
                return Err(
                    JotError::CommandError(
                        String::from_str("Cannot specify both an ID and --recent"),
                    ),
                );
            }
            let mut lines: Vec<String> = Vec::new();
            lines.push(view_by_id(journal, id));
            return Ok(lines);
        },
        None => {},
    }
    if args.recent {
        let es = journal.entries();
        let mut lines: Vec<String> = Vec::new();
        if es.len() > 0 {
            proof {
                assert(es[es@.len() - 1]@ == journal@.entries.last());
            }
            let line = format_entry(&es[es.len() - 1], config.show_time);
            lines.push(line);
        }
        return Ok(lines);
    }
    let found = match filter_entries(journal.entries(), args) {
        Ok(v) => v,
        Err(e) => {
            return Err(e);
        },
    };
    let ghost fv = found.deep_view();
    let n = found.len();
    let mut lines: Vec<String> = Vec::new();
    let mut i: usize = 0;
    while i < n
        invariant
            0 <= i <= n,
            n == found@.len(),
            found.deep_view() == fv,
            fv.len() == n,
            lines@.len() == i,
            forall|j: int| 0 <= j < i ==> (#[trigger] lines@[j])@ == spec_format_entry(
                fv[j],
                config.show_time,
            ),
        decreases n - i,
    {
        proof {
            assert(found[i as int]@ == fv[i as int]);
        }
        let line = format_entry(&found[i], config.show_time);
        lines.push(line);
        i += 1;
    }
    Ok(lines)
}

} // verus!
