//! Deterministic rendering of entries: the list line format, the single
//! entry block, and search-term highlighting. Pure text; colouring is a
//! presentation concern outside the library.

use vstd::prelude::*;
use vstd::string::*;
use crate::date::{spec_date_text, spec_time_hm_text, date_to_text, time_hm_text};
use crate::entry::{Entry, EntryV};
use crate::matching::match_at;
use crate::num::{spec_dec_digits, fmt_usize};
use crate::tag::Tag;

verus! {

/// The id column: the decimal id, right-aligned to at least three
/// characters.
pub open spec fn spec_id_field(id: nat) -> Seq<char> {
    let d = spec_dec_digits(id);
    if d.len() == 1 {
        "  "@ + d
    } else if d.len() == 2 {
        " "@ + d
    } else {
        d
    }
}

/// Tag names joined with single spaces.
pub open spec fn spec_tags_line(ts: Seq<Seq<char>>) -> Seq<char>
    decreases ts.len(),
{
    if ts.len() == 0 {
        Seq::empty()
    } else if ts.len() == 1 {
        ts[0]
    } else {
        ts[0] + " "@ + spec_tags_line(ts.drop_first())
    }
}

/// Tag names, each with its `#` marker, joined with single spaces.
pub open spec fn spec_hash_tags_line(ts: Seq<Seq<char>>) -> Seq<char>
    decreases ts.len(),
{
    if ts.len() == 0 {
        Seq::empty()
    } else if ts.len() == 1 {
        "#"@ + ts[0]
    } else {
        "#"@ + ts[0] + " "@ + spec_hash_tags_line(ts.drop_first())
    }
}

/// One list line block: the header (id, date, optional time, optional
/// tags), the body on its own line, and the separator rule.
pub open spec fn spec_format_entry(e: EntryV, show_time: bool) -> Seq<char> {
    "["@ + spec_id_field(e.id) + "] "@ + spec_date_text(e.date) + (if show_time {
        " "@ + spec_time_hm_text(e.timestamp)
    } else {
        Seq::empty()
    }) + (if e.tags.len() > 0 {
        " "@ + spec_tags_line(e.tags)
    } else {
        Seq::empty()
    }) + "\n"@ + e.body + "\n"@ + "----------------------------------------"@
}

/// The standalone block for one entry: a framed header with id and date,
/// the body, and the tag list when there is one.
pub open spec fn spec_single_entry_text(e: EntryV) -> Seq<char> {
    "\n=================================================="@ + "\nEntry #"@ + spec_dec_digits(e.id)
        + "\nDate: "@ + spec_date_text(e.date) + "\n\n"@ + e.body + "\n\n"@ + (if e.tags.len() > 0 {
        "Tags: "@ + spec_hash_tags_line(e.tags) + "\n"@
    } else {
        Seq::empty()
    }) + "==================================================\n"@
}

fn push_tags_line(out: &mut String, tags: &Vec<Tag>, hashed: bool)
    ensures
        final(out)@ == old(out)@ + (if hashed {
            spec_hash_tags_line(crate::entry::tag_names(tags@))
        } else {
            spec_tags_line(crate::entry::tag_names(tags@))
        }),
{
    let ghost all = crate::entry::tag_names(tags@);
    let ghost base = out@;
    let n = tags.len();
    let mut i: usize = 0;
    proof {
        reveal_strlit(" ");
        reveal_strlit("#");
    }
    while i < n
        invariant
            0 <= i <= n,
            n == tags@.len(),
            all == crate::entry::tag_names(tags@),
            all.len() == n,
            i == 0 ==> out@ == base,
            0 < i < n ==> (if hashed {
                spec_hash_tags_line(all)
            } else {
                spec_tags_line(all)
            }) == out@.skip(base.len() as int) + " "@ + (if hashed {
                spec_hash_tags_line(all.subrange(i as int, n as int))
            } else {
                spec_tags_line(all.subrange(i as int, n as int))
            }) && out@.len() >= base.len() && out@.subrange(0, base.len() as int) == base,
            i == n && n > 0 ==> out@ == base + (if hashed {
                spec_hash_tags_line(all)
            } else {
                spec_tags_line(all)
            }),
        decreases n - i,
    {
        proof {
            reveal_strlit(" ");
            reveal_strlit("#");
        }
        if i > 0 {
            out.append(" ");
        }
        if hashed {
            out.append("#");
        }
        out.append(tags[i].name.as_str());
        proof {
            let u = all.subrange(i as int, n as int);
            assert(u[0] == all[i as int]);
            assert(all[i as int] == tags@[i as int]@);
            if i + 1 < n {
                assert(u.drop_first() =~= all.subrange(i + 1, n as int));
            } else {
                assert(u.len() == 1);
            }
            if i == 0 {
                if n == 1 {
                    assert(out@ =~= base + (if hashed {
                        spec_hash_tags_line(all)
                    } else {
                        spec_tags_line(all)
                    }));
                } else {
                    assert(all.subrange(0, n as int) =~= all);
                    assert((if hashed {
                        spec_hash_tags_line(all)
                    } else {
                        spec_tags_line(all)
                    }) =~= out@.skip(base.len() as int) + " "@ + (if hashed {
                        spec_hash_tags_line(all.subrange(1, n as int))
                    } else {
                        spec_tags_line(all.subrange(1, n as int))
                    }));
                    assert(out@.subrange(0, base.len() as int) =~= base);
                }
            } else {
                if i + 1 == n {
                    assert(out@ =~= base + (if hashed {
                        spec_hash_tags_line(all)
                    } else {
                        spec_tags_line(all)
                    }));
                } else {
                    assert((if hashed {
                        spec_hash_tags_line(all)
                    } else {
                        spec_tags_line(all)
                    }) =~= out@.skip(base.len() as int) + " "@ + (if hashed {
                        spec_hash_tags_line(all.subrange(i + 1, n as int))
                    } else {
                        spec_tags_line(all.subrange(i + 1, n as int))
                    }));
                    assert(out@.subrange(0, base.len() as int) =~= base);
                }
            }
        }
        i += 1;
    }
    proof {
        if n == 0 {
            assert((if hashed {
                spec_hash_tags_line(all)
            } else {
                spec_tags_line(all)
            }) =~= Seq::<char>::empty());
            assert(out@ =~= base + (if hashed {
                spec_hash_tags_line(all)
            } else {
                spec_tags_line(all)
            }));
        }
    }
}

/// Renders one entry for the list view: header line, body line, and the
/// separator rule; the time of day appears when `show_time` is set.
pub fn format_entry(entry: &Entry, show_time: bool) -> (r: String)
    ensures
        r@ == spec_format_entry(entry@, show_time),
{
    let mut out = String::from_str("[");
    let d = fmt_usize(entry.id);
    if d.unicode_len() == 1 {
        out.append("  ");
    } else if d.unicode_len() == 2 {
        out.append(" ");
    }
    out.append(d.as_str());
    out.append("] ");
    let dt = date_to_text(&entry.date);
    out.append(dt.as_str());
    if show_time {
        out.append(" ");
        let tm = time_hm_text(&entry.timestamp);
        out.append(tm.as_str());
    }
    if entry.tags.len() > 0 {
        out.append(" ");
        push_tags_line(&mut out, &entry.tags, false);
    }
    out.append("\n");
    out.append(entry.body.as_str());
    out.append("\n");
    out.append("----------------------------------------");
    proof {
        reveal_strlit("[");
        reveal_strlit("  ");
        reveal_strlit(" ");
        reveal_strlit("] ");
        reveal_strlit("\n");
        reveal_strlit("----------------------------------------");
        assert(out@ =~= spec_format_entry(entry@, show_time));
    }
    out
}

/// Renders one entry as its standalone block.
pub fn format_single_entry(entry: &Entry) -> (r: String)
    ensures
        r@ == spec_single_entry_text(entry@),
{
    let mut out = String::from_str("\n==================================================");
    out.append("\nEntry #");
    let d = fmt_usize(entry.id);
    out.append(d.as_str());
    out.append("\nDate: ");
    let dt = date_to_text(&entry.date);
    out.append(dt.as_str());
    out.append("\n\n");
    out.append(entry.body.as_str());
    out.append("\n\n");
    if entry.tags.len() > 0 {
        out.append("Tags: ");
        push_tags_line(&mut out, &entry.tags, true);
        out.append("\n");
    }
    out.append("==================================================\n");
    proof {
        reveal_strlit("\n==================================================");
        reveal_strlit("\nEntry #");
        reveal_strlit("\nDate: ");
        reveal_strlit("\n\n");
        reveal_strlit("Tags: ");
        reveal_strlit("\n");
        reveal_strlit("==================================================\n");
        assert(out@ =~= spec_single_entry_text(entry@));
    }
    out
}

/// The marker pair wrapped around a highlighted run.
pub open spec fn spec_mark_open() -> Seq<char> {
    "\x1b[42m"@
}

pub open spec fn spec_mark_close() -> Seq<char> {
    "\x1b[0m"@
}

/// `text` with every occurrence of `term` wrapped in the highlight
/// markers. Occurrences are found positionally in `key` (the case-folded
/// text, aligned character for character), left to right, without
/// overlap.
pub open spec fn spec_highlight(text: Seq<char>, key: Seq<char>, term: Seq<char>) -> Seq<char>
    decreases text.len(),
{
    if term.len() == 0 || text.len() == 0 {
        text
    } else if text.len() >= term.len() && key.subrange(0, term.len() as int) == term {
        spec_mark_open() + text.subrange(0, term.len() as int) + spec_mark_close()
            + spec_highlight(
            text.skip(term.len() as int),
            key.skip(term.len() as int),
            term,
        )
    } else {
        seq![text[0]] + spec_highlight(text.drop_first(), key.drop_first(), term)
    }
}

/// Wraps each positional occurrence of `term` (looked up in `key`, the
/// aligned case-folded text) in the highlight markers.
pub fn highlight_occurrences(text: &str, key: &str, term: &str) -> (r: String)
    requires
        key@.len() == text@.len(),
    ensures
        r@ == spec_highlight(text@, key@, term@),
{
    let n = text.unicode_len();
    let tl = term.unicode_len();
    let mut out = String::new();
    let mut i: usize = 0;
    proof {
        assert(text@.skip(0) =~= text@);
        assert(key@.skip(0) =~= key@);
    }
    while i < n
        invariant
            0 <= i <= n,
            n == text@.len(),
            n == key@.len(),
            tl == term@.len(),
            spec_highlight(text@, key@, term@) == out@ + spec_highlight(
                text@.skip(i as int),
                key@.skip(i as int),
                term@,
            ),
        decreases n - i,
    {
        let ghost tx = text@.skip(i as int);
        let ghost ky = key@.skip(i as int);
        let ghost before = out@;
        if tl > 0 && tl <= n - i && match_at(key, term, i) {
            proof {
                assert(ky.subrange(0, tl as int) =~= key@.subrange(i as int, i as int + tl as int));
                reveal_strlit("\x1b[42m");
                reveal_strlit("\x1b[0m");
            }
            out.append("\x1b[42m");
            let piece = text.substring_char(i, i + tl);
            out.append(piece);
            out.append("\x1b[0m");
            proof {
                assert(tx.subrange(0, tl as int) =~= text@.subrange(
                    i as int,
                    i as int + tl as int,
                ));
                assert(tx.skip(tl as int) =~= text@.skip(i + tl));
                assert(ky.skip(tl as int) =~= key@.skip(i + tl));
                assert(out@ =~= before + (spec_mark_open() + tx.subrange(0, tl as int)
                    + spec_mark_close()));
            }
            i += tl;
        } else {
            let piece = text.substring_char(i, i + 1);
            out.append(piece);
            proof {
                assert(tx[0] == text@[i as int]);
                assert(piece@ =~= seq![tx[0]]);
                assert(tx.drop_first() =~= text@.skip(i + 1));
                assert(ky.drop_first() =~= key@.skip(i + 1));
                if tl > 0 && tl <= n - i {
                    assert(ky.subrange(0, tl as int) =~= key@.subrange(
                        i as int,
                        i as int + tl as int,
                    ));
                }
                assert(out@ =~= before + seq![tx[0]]);
            }
            i += 1;
        }
    }
    proof {
        assert(text@.skip(n as int) =~= Seq::<char>::empty());
        assert(key@.skip(n as int) =~= Seq::<char>::empty());
    }
    out
}

} // verus!
