//! Export rendering: the journal's entries as the persistence format, as
//! comma-separated rows, or as a plain-text block list. The core renders
//! the text; writing and opening files is the caller's concern.

use vstd::prelude::*;
use vstd::string::*;
use crate::codec::serialize_entries;
use crate::date::spec_date_text;
use crate::entry::{Entry, EntryV};
use crate::render::spec_tags_line;
use crate::tag::Tag;

verus! {

/// The parameters of the export command.
pub struct ExportArgs {
    pub format: ExportFormat,
    pub open: bool,
}

/// The offered export formats.
pub enum ExportFormat {
    Json,
    Csv,
    Plain,
}

/// The export file name for a format and a timestamp text.
pub fn generate_filename(format: &ExportFormat, timestamp: &str) -> (r: String)
    ensures
        match format {
            ExportFormat::Json => r@ == "journal_"@ + timestamp@ + ".json"@,
            ExportFormat::Csv => r@ == "journal_"@ + timestamp@ + ".csv"@,
            ExportFormat::Plain => r@ == "journal_"@ + timestamp@ + ".txt"@,
        },
{
    let mut out = String::from_str("journal_");
    out.append(timestamp);
    match format {
        ExportFormat::Json => out.append(".json"),
        ExportFormat::Csv => out.append(".csv"),
        ExportFormat::Plain => out.append(".txt"),
    }
    out
}

/// The persistence rendering of the entries.
pub fn export_to_json(entries: &Vec<Entry>) -> (r: String)
    ensures
        r@ == crate::codec::spec_emit_entries(entries.deep_view()),
{
    serialize_entries(entries)
}

/// A body character as it appears in a row: line breaks become blanks and
/// commas semicolons, so a body stays within its column.
pub open spec fn spec_csv_char(c: char) -> char {
    if c == '\n' {
        ' '
    } else if c == ',' {
        ';'
    } else {
        c
    }
}

/// A body as it appears in a row.
pub open spec fn spec_csv_text(s: Seq<char>) -> Seq<char> {
    s.map_values(|c: char| spec_csv_char(c))
}

/// Tag names joined with commas.
pub open spec fn spec_comma_tags(ts: Seq<Seq<char>>) -> Seq<char>
    decreases ts.len(),
{
    if ts.len() == 0 {
        Seq::empty()
    } else if ts.len() == 1 {
        ts[0]
    } else {
        ts[0] + ","@ + spec_comma_tags(ts.drop_first())
    }
}

/// One row: date, an empty title column, the sanitized body, and the
/// comma-joined tags.
pub open spec fn spec_csv_row(e: EntryV) -> Seq<char> {
    spec_date_text(e.date) + ",,"@ + spec_csv_text(e.body) + ","@ + spec_comma_tags(e.tags)
        + "\n"@
}

pub open spec fn spec_csv_rows(es: Seq<EntryV>) -> Seq<char>
    decreases es.len(),
{
    if es.len() == 0 {
        Seq::empty()
    } else {
        spec_csv_row(es[0]) + spec_csv_rows(es.drop_first())
    }
}

/// The whole comma-separated rendering: header line, then one row per
/// entry.
pub open spec fn spec_csv(es: Seq<EntryV>) -> Seq<char> {
    "date,title,body,tags\n"@ + spec_csv_rows(es)
}

fn append_csv_text(out: &mut String, s: &str)
    ensures
        final(out)@ == old(out)@ + spec_csv_text(s@),
{
    let n = s.unicode_len();
    let ghost base = out@;
    let mut i: usize = 0;
    proof {
        assert(out@ =~= base + s@.subrange(0, 0).map_values(|c: char| spec_csv_char(c)));
    }
    while i < n
        invariant
            0 <= i <= n,
            n == s@.len(),
            out@ == base + s@.subrange(0, i as int).map_values(|c: char| spec_csv_char(c)),
        decreases n - i,
    {
        let ghost before = out@;
        let c = s.get_char(i);
        if c == '\n' {
            out.append(" ");
            proof {
                reveal_strlit(" ");
            }
        } else if c == ',' {
            out.append(";");
            proof {
                reveal_strlit(";");
            }
        } else {
            let piece = s.substring_char(i, i + 1);
            out.append(piece);
            proof {
                assert(piece@ =~= seq![c]);
            }
        }
        proof {
            assert(out@ =~= base + s@.subrange(0, i + 1).map_values(
                |ch: char| spec_csv_char(ch),
            ));
        }
        i += 1;
    }
    proof {
        assert(s@.subrange(0, n as int) =~= s@);
    }
}

fn append_comma_tags(out: &mut String, tags: &Vec<Tag>)
    ensures
        final(out)@ == old(out)@ + spec_comma_tags(crate::entry::tag_names(tags@)),
{
    let ghost all = crate::entry::tag_names(tags@);
    let ghost base = out@;
    let n = tags.len();
    let mut i: usize = 0;
    proof {
        reveal_strlit(",");
    }
    while i < n
        invariant
            0 <= i <= n,
            n == tags@.len(),
            all == crate::entry::tag_names(tags@),
            all.len() == n,
            i == 0 ==> out@ == base,
            0 < i < n ==> spec_comma_tags(all) == out@.skip(base.len() as int) + ","@
                + spec_comma_tags(all.subrange(i as int, n as int)) && out@.len() >= base.len()
                && out@.subrange(0, base.len() as int) == base,
            i == n && n > 0 ==> out@ == base + spec_comma_tags(all),
        decreases n - i,
    {
        proof {
            reveal_strlit(",");
        }
        if i > 0 {
            out.append(",");
        }
        out.append(tags[i].name.as_str());
        proof {
            let u = all.subrange(i as int, n as int);
            assert(u[0] == all[i as int]);
            assert(all[i as int] == tags@[i as int]@);
            if i + 1 < n {
                assert(u.drop_first() =~= all.subrange(i + 1, n as int));
            } else {
                assert(u.len() == 1);
            }
            if i == 0 {
                if n == 1 {
                    assert(out@ =~= base + spec_comma_tags(all));
                } else {
                    assert(all.subrange(0, n as int) =~= all);
                    assert(spec_comma_tags(all) =~= out@.skip(base.len() as int) + ","@
                        + spec_comma_tags(all.subrange(1, n as int)));
                    assert(out@.subrange(0, base.len() as int) =~= base);
                }
            } else {
                if i + 1 == n {
                    assert(out@ =~= base + spec_comma_tags(all));
                } else {
                    assert(spec_comma_tags(all) =~= out@.skip(base.len() as int) + ","@
                        + spec_comma_tags(all.subrange(i + 1, n as int)));
                    assert(out@.subrange(0, base.len() as int) =~= base);
                }
            }
        }
        i += 1;
    }
    proof {
        if n == 0 {
            assert(spec_comma_tags(all) =~= Seq::<char>::empty());
            assert(out@ =~= base + spec_comma_tags(all));
        }
    }
}

/// Renders the entries as comma-separated rows under a fixed header.
pub fn export_to_csv(entries: &Vec<Entry>) -> (r: String)
    ensures
        r@ == spec_csv(entries.deep_view()),
{
    let ghost all = entries.deep_view();
    let mut out = String::from_str("date,title,body,tags\n");
    let ghost base = out@;
    let n = entries.len();
    proof {
        assert(all.subrange(0, n as int) =~= all);
    }
    let mut i: usize = 0;
    while i < n
        invariant
            0 <= i <= n,
            n == entries@.len(),
            entries.deep_view() == all,
            all.len() == n,
            base == "date,title,body,tags\n"@,
            out@.len() >= base.len(),
            out@.subrange(0, base.len() as int) == base,
            spec_csv_rows(all) == out@.skip(base.len() as int) + spec_csv_rows(
                all.subrange(i as int, n as int),
            ),
        decreases n - i,
    {
        let ghost u = all.subrange(i as int, n as int);
        proof {
            assert(u[0] == all[i as int]);
            assert(u.drop_first() =~= all.subrange(i + 1, n as int));
            assert(entries[i as int]@ == all[i as int]);
        }
        let e = &entries[i];
        let ghost before = out@;
        let d = crate::date::date_to_text(&e.date);
        out.append(d.as_str());
        out.append(",,");
        append_csv_text(&mut out, e.body.as_str());
        out.append(",");
        append_comma_tags(&mut out, &e.tags);
        out.append("\n");
        proof {
            reveal_strlit(",,");
            reveal_strlit(",");
            reveal_strlit("\n");
            assert(out@ =~= before + spec_csv_row(all[i as int]));
            assert(spec_csv_rows(u) == spec_csv_row(u[0]) + spec_csv_rows(u.drop_first()));
            assert(out@.subrange(0, base.len() as int) =~= base);
            assert(out@.skip(base.len() as int) =~= before.skip(base.len() as int) + spec_csv_row(
                all[i as int],
            ));
            assert(spec_csv_rows(all) =~= out@.skip(base.len() as int) + spec_csv_rows(
                all.subrange(i + 1, n as int),
            ));
        }
        i += 1;
    }
    proof {
        assert(all.subrange(n as int, n as int) =~= Seq::<EntryV>::empty());
        assert(spec_csv_rows(all) =~= out@.skip(base.len() as int));
        assert(out@ =~= base + out@.skip(base.len() as int));
        assert(out@ =~= spec_csv(all));
    }
    out
}

/// One plain-text block: the date line, the tag line when there are
/// tags, the body, and a separator.
pub open spec fn spec_plain_block(e: EntryV) -> Seq<char> {
    "Date: "@ + spec_date_text(e.date) + "\n"@ + (if e.tags.len() > 0 {
        "Tags: "@ + spec_comma_space_tags(e.tags) + "\n"@
    } else {
        Seq::empty()
    }) + "\n"@ + e.body + "\n"@ + "\n---\n\n"@
}

/// Tag names joined with a comma and a blank.
pub open spec fn spec_comma_space_tags(ts: Seq<Seq<char>>) -> Seq<char>
    decreases ts.len(),
{
    if ts.len() == 0 {
        Seq::empty()
    } else if ts.len() == 1 {
        ts[0]
    } else {
        ts[0] + ", "@ + spec_comma_space_tags(ts.drop_first())
    }
}

pub open spec fn spec_plain_blocks(es: Seq<EntryV>) -> Seq<char>
    decreases es.len(),
{
    if es.len() == 0 {
        Seq::empty()
    } else {
        spec_plain_block(es[0]) + spec_plain_blocks(es.drop_first())
    }
}

fn append_comma_space_tags(out: &mut String, tags: &Vec<Tag>)
    ensures
        final(out)@ == old(out)@ + spec_comma_space_tags(crate::entry::tag_names(tags@)),
{
    let ghost all = crate::entry::tag_names(tags@);
    let ghost base = out@;
    let n = tags.len();
    let mut i: usize = 0;
    proof {
        reveal_strlit(", ");
    }
    while i < n
        invariant
            0 <= i <= n,
            n == tags@.len(),
            all == crate::entry::tag_names(tags@),
            all.len() == n,
            i == 0 ==> out@ == base,
            0 < i < n ==> spec_comma_space_tags(all) == out@.skip(base.len() as int) + ", "@
                + spec_comma_space_tags(all.subrange(i as int, n as int)) && out@.len()
                >= base.len() && out@.subrange(0, base.len() as int) == base,
            i == n && n > 0 ==> out@ == base + spec_comma_space_tags(all),
        decreases n - i,
    {
        proof {
            reveal_strlit(", ");
        }
        if i > 0 {
            out.append(", ");
        }
        out.append(tags[i].name.as_str());
        proof {
            let u = all.subrange(i as int, n as int);
            assert(u[0] == all[i as int]);
            assert(all[i as int] == tags@[i as int]@);
            if i + 1 < n {
                assert(u.drop_first() =~= all.subrange(i + 1, n as int));
            } else {
                assert(u.len() == 1);
            }
            if i == 0 {
                if n == 1 {
                    assert(out@ =~= base + spec_comma_space_tags(all));
                } else {
                    assert(all.subrange(0, n as int) =~= all);
                    assert(spec_comma_space_tags(all) =~= out@.skip(base.len() as int) + ", "@
                        + spec_comma_space_tags(all.subrange(1, n as int)));
                    assert(out@.subrange(0, base.len() as int) =~= base);
                }
            } else {
                if i + 1 == n {
                    assert(out@ =~= base + spec_comma_space_tags(all));
                } else {
                    assert(spec_comma_space_tags(all) =~= out@.skip(base.len() as int) + ", "@
                        + spec_comma_space_tags(all.subrange(i + 1, n as int)));
                    assert(out@.subrange(0, base.len() as int) =~= base);
                }
            }
        }
        i += 1;
    }
    proof {
        if n == 0 {
            assert(spec_comma_space_tags(all) =~= Seq::<char>::empty());
            assert(out@ =~= base + spec_comma_space_tags(all));
        }
    }
}

/// Renders the entries as plain-text blocks.
pub fn export_to_plain(entries: &Vec<Entry>) -> (r: String)
    ensures
        r@ == spec_plain_blocks(entries.deep_view()),
{
    let ghost all = entries.deep_view();
    let mut out = String::new();
    let n = entries.len();
    proof {
        assert(all.subrange(0, n as int) =~= all);
        assert(out@ =~= Seq::<char>::empty());
    }
    let mut i: usize = 0;
    while i < n
        invariant
            0 <= i <= n,
            n == entries@.len(),
            entries.deep_view() == all,
            all.len() == n,
            spec_plain_blocks(all) == out@ + spec_plain_blocks(all.subrange(i as int, n as int)),
        decreases n - i,
    {
        let ghost u = all.subrange(i as int, n as int);
        proof {
            assert(u[0] == all[i as int]);
            assert(u.drop_first() =~= all.subrange(i + 1, n as int));
            assert(entries[i as int]@ == all[i as int]);
        }
        let e = &entries[i];
        let ghost before = out@;
        out.append("Date: ");
        let d = crate::date::date_to_text(&e.date);
        out.append(d.as_str());
        out.append("\n");
        if e.tags.len() > 0 {
            out.append("Tags: ");
            append_comma_space_tags(&mut out, &e.tags);
            out.append("\n");
        }
        out.append("\n");
        out.append(e.body.as_str());
        out.append("\n");
        out.append("\n---\n\n");
        proof {
            reveal_strlit("Date: ");
            reveal_strlit("Tags: ");
            reveal_strlit("\n");
            reveal_strlit("\n---\n\n");
            assert(out@ =~= before + spec_plain_block(all[i as int]));
            assert(spec_plain_blocks(u) == spec_plain_block(u[0]) + spec_plain_blocks(
                u.drop_first(),
            ));
            assert(spec_plain_blocks(all) =~= out@ + spec_plain_blocks(
                all.subrange(i + 1, n as int),
            ));
        }
        i += 1;
    }
    proof {
        assert(all.subrange(n as int, n as int) =~= Seq::<EntryV>::empty());
    }
    out
}

} // verus!
