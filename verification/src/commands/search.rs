//! Searching entries: a free-text term (exact or fuzzy, case-folded
//! unless asked otherwise), a tag set, and a date range, combined as one
//! conjunctive predicate; matches are rendered and the term highlighted.

use vstd::prelude::*;
use vstd::string::*;
use crate::config::JournalConfig;
use crate::date::{Date, spec_parse_date, parse_date};
use crate::entry::{Entry, EntryV, tag_names};
use crate::error::{JotError, JotResult};
use crate::journal::Journal;
use crate::matching::{
    TagMatch, spec_tags_match, spec_content_match, spec_date_in_range, lower_of, lowercase,
    check_content_match, check_date_range, do_tags_match,
};
use crate::render::{spec_format_entry, spec_highlight, format_entry, highlight_occurrences};
use crate::tag::Tag;

verus! {

/// The parameters of the search command.
pub struct SearchArgs {
    pub query: String,
    pub tags: Vec<String>,
    pub from: Option<String>,
    pub to: Option<String>,
    pub fuzzy: bool,
    pub all: bool,
    pub case_sensitive: bool,
}

/// The term an entry's body is held against: the query itself when case
/// matters, else its case folding.
pub open spec fn spec_search_term(query: Seq<char>, case_sensitive: bool) -> Seq<char> {
    if case_sensitive {
        query
    } else {
        lower_of(query)
    }
}

/// Whether one entry satisfies the whole query: text and tags and dates.
pub open spec fn spec_entry_matches(
    e: EntryV,
    term: Seq<char>,
    qtags: Seq<Seq<char>>,
    fromd: Option<Date>,
    tod: Option<Date>,
    fuzzy: bool,
    all: bool,
    case_sensitive: bool,
) -> bool {
    let content = if case_sensitive {
        e.body
    } else {
        lower_of(e.body)
    };
    &&& spec_content_match(content, term, fuzzy)
    &&& spec_date_in_range(e.date, fromd, tod)
    &&& spec_tags_match(
        qtags,
        e.tags,
        if all {
            TagMatch::All
        } else {
            TagMatch::Any
        },
    )
}

/// The matching entries, in journal order.
pub open spec fn spec_search_matches(
    es: Seq<EntryV>,
    term: Seq<char>,
    qtags: Seq<Seq<char>>,
    fromd: Option<Date>,
    tod: Option<Date>,
    fuzzy: bool,
    all: bool,
    case_sensitive: bool,
) -> Seq<EntryV>
    decreases es.len(),
{
    if es.len() == 0 {
        Seq::empty()
    } else {
        let rest = spec_search_matches(
            es.drop_first(),
            term,
            qtags,
            fromd,
            tod,
            fuzzy,
            all,
            case_sensitive,
        );
        if spec_entry_matches(es[0], term, qtags, fromd, tod, fuzzy, all, case_sensitive) {
            seq![es[0]] + rest
        } else {
            rest
        }
    }
}

/// Wraps each query tag name as a tag value.
pub fn tags_of_names(names: &Vec<String>) -> (r: Vec<Tag>)
    ensures
        tag_names(r@) == names.deep_view(),
{
    let mut out: Vec<Tag> = Vec::new();
    let n = names.len();
    let mut i: usize = 0;
    while i < n
        invariant
            0 <= i <= n,
            n == names@.len(),
            out@.len() == i,
            forall|j: int| 0 <= j < i ==> out@[j]@ == names@[j]@,
        decreases n - i,
    {
        out.push(Tag::new(names[i].clone()));
        i += 1;
    }
    proof {
        assert(tag_names(out@) =~= names.deep_view());
    }
    out
}

/// The entries matching the query, in order. A malformed date bound is an
/// error.
pub fn search_entries(journal: &Journal, args: &SearchArgs) -> (r: JotResult<Vec<Entry>>)
    ensures
        ({
            let fromd = match args.from {
                Some(f) => spec_parse_date(f@),
                None => None,
            };
            let tod = match args.to {
                Some(t) => spec_parse_date(t@),
                None => None,
            };
            match r {
                Ok(found) => {
                    &&& (args.from is Some ==> fromd is Some)
                    &&& (args.to is Some ==> tod is Some)
                    &&& found.deep_view() == spec_search_matches(
                        journal@.entries,
                        spec_search_term(args.query@, args.case_sensitive),
                        args.tags.deep_view(),
                        if args.from is Some {
                            fromd
                        } else {
                            None
                        },
                        if args.to is Some {
                            tod
                        } else {
                            None
                        },
                        args.fuzzy,
                        args.all,
                        args.case_sensitive,
                    )
                },
                Err(e) => {
                    &&& e is SearchError
                    &&& ((args.from is Some && fromd is None) || (args.to is Some && tod is None))
                },
            }
        }),
{
    let fromd = match &args.from {
        Some(f) => match parse_date(f.as_str()) {
            Some(d) => Some(d),
            None => {
                return Err(
                    JotError::SearchError(String::from_str("Invalid date format. Use YYYY-MM-DD")),
                );
            },
        },
        None => None,
    };
    let tod = match &args.to {
        Some(t) => match parse_date(t.as_str()) {
            Some(d) => Some(d),
            None => {
                return Err(
                    JotError::SearchError(String::from_str("Invalid date format. Use YYYY-MM-DD")),
                );
            },
        },
        None => None,
    };
    let term = if args.case_sensitive {
        args.query.clone()
    } else {
        lowercase(args.query.as_str())
    };
    let qtags = tags_of_names(&args.tags);
    let ghost gterm = spec_search_term(args.query@, args.case_sensitive);
    let ghost all_es = journal@.entries;
    let es = journal.entries();
    let n = es.len();
    let mut out: Vec<Entry> = Vec::new();
    proof {
        assert(all_es.subrange(0, n as int) =~= all_es);
        assert(out.deep_view() + spec_search_matches(
            all_es,
            gterm,
            args.tags.deep_view(),
            fromd,
            tod,
            args.fuzzy,
            args.all,
            args.case_sensitive,
        ) =~= spec_search_matches(
            all_es,
            gterm,
            args.tags.deep_view(),
            fromd,
            tod,
            args.fuzzy,
            args.all,
            args.case_sensitive,
        ));
    }
    let mut i: usize = 0;
    while i < n
        invariant
            0 <= i <= n,
            n == es@.len(),
            es.deep_view() == all_es,
            all_es.len() == n,
            term@ == (if args.case_sensitive {
                args.query@
            } else {
                lower_of(args.query@)
            }),
            gterm == spec_search_term(args.query@, args.case_sensitive),
            tag_names(qtags@) == args.tags.deep_view(),
            spec_search_matches(
                all_es,
                gterm,
                args.tags.deep_view(),
                fromd,
                tod,
                args.fuzzy,
                args.all,
                args.case_sensitive,
            ) == out.deep_view() + spec_search_matches(
                all_es.subrange(i as int, n as int),
                gterm,
                args.tags.deep_view(),
                fromd,
                tod,
                args.fuzzy,
                args.all,
                args.case_sensitive,
            ),
        decreases n - i,
    {
        let ghost u = all_es.subrange(i as int, n as int);
        proof {
            assert(u[0] == all_es[i as int]);
            assert(u.drop_first() =~= all_es.subrange(i + 1, n as int));
            assert(es[i as int]@ == all_es[i as int]);
        }
        let e = &es[i];
        let content = if args.case_sensitive {
            e.body.clone()
        } else {
            lowercase(e.body.as_str())
        };
        let text_ok = check_content_match(content.as_str(), term.as_str(), args.fuzzy);
        let date_ok = check_date_range(&e.date, &fromd, &tod);
        let mode = if args.all {
            TagMatch::All
        } else {
            TagMatch::Any
        };
        let tags_ok = do_tags_match(qtags.as_slice(), e.tags.as_slice(), mode);
        let ghost before = out.deep_view();
        if text_ok && date_ok && tags_ok {
            out.push(e.duplicate());
            proof {
                assert(out.deep_view() =~~= before.push(all_es[i as int]));
                assert(out.deep_view() =~~= before + seq![all_es[i as int]]);
            }
        } else {
            proof {
                assert(!spec_entry_matches(
                    all_es[i as int],
                    gterm,
                    args.tags.deep_view(),
                    fromd,
                    tod,
                    args.fuzzy,
                    args.all,
                    args.case_sensitive,
                ));
            }
        }
        i += 1;
    }
    proof {
        assert(all_es.subrange(n as int, n as int) =~= Seq::<EntryV>::empty());
    }
    Ok(out)
}

/// What one result line looks like: the rendered entry, with the
/// occurrences of a non-empty term highlighted — positionally, against
/// the case-folded rendering, where that folding keeps the length.
pub open spec fn spec_result_line(text: Seq<char>, term: Seq<char>) -> Seq<char> {
    if term.len() == 0 {
        text
    } else if lower_of(text).len() == text.len() {
        spec_highlight(text, lower_of(text), term)
    } else {
        text
    }
}

/// Runs a search and renders each match, highlighting the term.
pub fn execute(journal: &Journal, args: &SearchArgs, config: &JournalConfig) -> (r: JotResult<
    Vec<String>,
>)
    ensures
        ({
            let fromd = match args.from {
                Some(f) => spec_parse_date(f@),
                None => None,
            };
            let tod = match args.to {
                Some(t) => spec_parse_date(t@),
                None => None,
            };
            match r {
                Ok(lines) => {
                    let found = spec_search_matches(
                        journal@.entries,
                        spec_search_term(args.query@, args.case_sensitive),
                        args.tags.deep_view(),
                        if args.from is Some {
                            fromd
                        } else {
                            None
                        },
                        if args.to is Some {
                            tod
                        } else {
                            None
                        },
                        args.fuzzy,
                        args.all,
                        args.case_sensitive,
                    );
                    &&& lines@.len() == found.len()
                    &&& forall|j: int| 0 <= j < found.len() ==> (#[trigger] lines@[j])@
                        == spec_result_line(
                        spec_format_entry(found[j], config.show_time),
                        spec_search_term(args.query@, args.case_sensitive),
                    )
                },
                Err(e) => {
                    &&& e is SearchError
                    &&& ((args.from is Some && fromd is None) || (args.to is Some && tod is None))
                },
            }
        }),
{
    let found = match search_entries(journal, args) {
        Ok(v) => v,
        Err(e) => {
            return Err(e);
        },
    };
    let term = if args.case_sensitive {
        args.query.clone()
    } else {
        lowercase(args.query.as_str())
    };
    let ghost gterm = spec_search_term(args.query@, args.case_sensitive);
    let ghost fv = found.deep_view();
    let n = found.len();
    let mut lines: Vec<String> = Vec::new();
    let mut i: usize = 0;
    while i < n
        invariant
            0 <= i <= n,
            n == found@.len(),
            found.deep_view() == fv,
            fv.len() == n,
            term@ == gterm,
            lines@.len() == i,
            forall|j: int| 0 <= j < i ==> (#[trigger] lines@[j])@ == spec_result_line(
                spec_format_entry(fv[j], config.show_time),
                gterm,
            ),
        decreases n - i,
    {
        proof {
            assert(found[i as int]@ == fv[i as int]);
        }
        let line = format_entry(&found[i], config.show_time);
        if term.unicode_len() == 0 {
            lines.push(line);
        } else {
            let key = lowercase(line.as_str());
            if key.unicode_len() == line.unicode_len() {
                let marked = highlight_occurrences(line.as_str(), key.as_str(), term.as_str());
                lines.push(marked);
            } else {
                lines.push(line);
            }
        }
        i += 1;
    }
    Ok(lines)
}

} // verus!
