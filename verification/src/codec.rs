//! The persistence format: a journal is stored as an array of entry
//! records, each with its id, timestamp, date, body and tag names. The
//! module gives the canonical rendering, the strict parser, and the proof
//! that parsing a rendering yields the entries back.
//!
//! The parser is deliberately strict: it accepts exactly the canonical
//! shape this module writes — fixed key order, no extra whitespace, the
//! escapes of the escape module — and refuses anything else as malformed.
//! Round-trip fidelity with that one canonical shape is the format's
//! contract; a hand-edited or differently spaced file is a parse error,
//! not a lenient read.

use vstd::prelude::*;
use vstd::string::*;
use crate::date::{
    Date, Timestamp, spec_date_text, spec_timestamp_text, spec_parse_date, spec_parse_timestamp,
    lemma_date_text_parse, lemma_timestamp_text_parse, date_to_text, timestamp_to_text, parse_date,
    parse_timestamp,
};
use crate::entry::{Entry, EntryV, tag_names};
use crate::escape::{
    spec_escape, spec_escape_char, spec_parse_string, lemma_parse_string_shrinks,
    lemma_parse_escaped, lemma_escape_plain, ctrl_char, hex_char, hex_val,
};
use crate::num::{
    spec_dec_digits, digits_val, is_digit, all_digits, lemma_dec_digits, fmt_usize, spec_padded,
};
use crate::tag::Tag;

verus! {

/// The key-and-punctuation pieces of one record, in order.
pub open spec fn lit_id() -> Seq<char> {
    seq!['{', '"', 'i', 'd', '"', ':']
}

pub open spec fn lit_timestamp() -> Seq<char> {
    seq![',', '"', 't', 'i', 'm', 'e', 's', 't', 'a', 'm', 'p', '"', ':']
}

pub open spec fn lit_date() -> Seq<char> {
    seq![',', '"', 'd', 'a', 't', 'e', '"', ':']
}

pub open spec fn lit_body() -> Seq<char> {
    seq![',', '"', 'b', 'o', 'd', 'y', '"', ':']
}

pub open spec fn lit_tags() -> Seq<char> {
    seq![',', '"', 't', 'a', 'g', 's', '"', ':', '[']
}

/// A quoted, escaped text.
pub open spec fn spec_emit_string(u: Seq<char>) -> Seq<char> {
    seq!['"'] + spec_escape(u) + seq!['"']
}

/// The tag names, each quoted, joined with commas.
pub open spec fn spec_emit_tags(ts: Seq<Seq<char>>) -> Seq<char>
    decreases ts.len(),
{
    if ts.len() == 0 {
        Seq::empty()
    } else if ts.len() == 1 {
        spec_emit_string(ts[0])
    } else {
        spec_emit_string(ts[0]) + seq![','] + spec_emit_tags(ts.drop_first())
    }
}

/// One entry record.
pub open spec fn spec_emit_entry(e: EntryV) -> Seq<char> {
    lit_id() + spec_dec_digits(e.id) + lit_timestamp() + spec_emit_string(
        spec_timestamp_text(e.timestamp),
    ) + lit_date() + spec_emit_string(spec_date_text(e.date)) + lit_body() + spec_emit_string(
        e.body,
    ) + lit_tags() + spec_emit_tags(e.tags) + seq![']', '}']
}

/// The entry records, joined with commas.
pub open spec fn spec_emit_entry_list(es: Seq<EntryV>) -> Seq<char>
    decreases es.len(),
{
    if es.len() == 0 {
        Seq::empty()
    } else if es.len() == 1 {
        spec_emit_entry(es[0])
    } else {
        spec_emit_entry(es[0]) + seq![','] + spec_emit_entry_list(es.drop_first())
    }
}

/// The whole journal file: the records in brackets.
pub open spec fn spec_emit_entries(es: Seq<EntryV>) -> Seq<char> {
    seq!['['] + spec_emit_entry_list(es) + seq![']']
}

/// Consumes an exact literal prefix.
pub open spec fn spec_eat(s: Seq<char>, lit: Seq<char>) -> Option<Seq<char>> {
    if lit.len() <= s.len() && s.subrange(0, lit.len() as int) == lit {
        Some(s.subrange(lit.len() as int, s.len() as int))
    } else {
        None
    }
}

/// Splits off the longest digit prefix.
pub open spec fn spec_parse_digits(s: Seq<char>) -> (Seq<char>, Seq<char>)
    decreases s.len(),
{
    if s.len() == 0 || !is_digit(s[0]) {
        (Seq::empty(), s)
    } else {
        let (d, r) = spec_parse_digits(s.drop_first());
        (seq![s[0]] + d, r)
    }
}

/// Parses a number: a nonempty digit prefix, valued in decimal.
pub open spec fn spec_parse_number(s: Seq<char>) -> Option<(nat, Seq<char>)> {
    let (d, r) = spec_parse_digits(s);
    if d.len() >= 1 {
        Some((digits_val(d), r))
    } else {
        None
    }
}

/// Digit splitting preserves length.
pub proof fn lemma_parse_digits_split(s: Seq<char>)
    ensures
        spec_parse_digits(s).0.len() + spec_parse_digits(s).1.len() == s.len(),
    decreases s.len(),
{
    if s.len() > 0 && is_digit(s[0]) {
        lemma_parse_digits_split(s.drop_first());
    }
}

/// Parses a quoted string: the opening quote, then escaped content and
/// the closing quote.
pub open spec fn spec_parse_quoted(s: Seq<char>) -> Option<(Seq<char>, Seq<char>)> {
    match spec_eat(s, seq!['"']) {
        Some(r) => spec_parse_string(r),
        None => None,
    }
}

/// A parsed quoted string consumes at least its two quotes.
pub proof fn lemma_parse_quoted_shrinks(s: Seq<char>)
    ensures
        match spec_parse_quoted(s) {
            Some((u, r)) => r.len() < s.len(),
            None => true,
        },
{
    match spec_eat(s, seq!['"']) {
        Some(r) => {
            lemma_parse_string_shrinks(r);
        },
        None => {},
    }
}

/// Parses the tail of a tag list: tags separated by commas, ended by the
/// closing bracket (consumed).
pub open spec fn spec_parse_tags(s: Seq<char>) -> Option<(Seq<Seq<char>>, Seq<char>)>
    decreases s.len(),
    via spec_parse_tags_decreases
{
    if s.len() == 0 {
        None
    } else if s[0] == ']' {
        Some((Seq::empty(), s.drop_first()))
    } else {
        match spec_parse_quoted(s) {
            Some((t, r)) => {
                if r.len() == 0 {
                    None
                } else if r[0] == ',' {
                    match spec_parse_tags(r.drop_first()) {
                        Some((ts, r2)) => Some((seq![t] + ts, r2)),
                        None => None,
                    }
                } else if r[0] == ']' {
                    Some((seq![t], r.drop_first()))
                } else {
                    None
                }
            },
            None => None,
        }
    }
}

#[via_fn]
proof fn spec_parse_tags_decreases(s: Seq<char>) {
    lemma_parse_quoted_shrinks(s);
}

/// Parses one entry record.
pub open spec fn spec_parse_entry(s: Seq<char>) -> Option<(EntryV, Seq<char>)> {
    match spec_eat(s, lit_id()) {
        None => None,
        Some(s1) => match spec_parse_number(s1) {
            None => None,
            Some((id, s2)) => match spec_eat(s2, lit_timestamp()) {
                None => None,
                Some(s3) => match spec_parse_quoted(s3) {
                    None => None,
                    Some((tstext, s4)) => match spec_parse_timestamp(tstext) {
                        None => None,
                        Some(ts) => match spec_eat(s4, lit_date()) {
                            None => None,
                            Some(s5) => match spec_parse_quoted(s5) {
                                None => None,
                                Some((dtext, s6)) => match spec_parse_date(dtext) {
                                    None => None,
                                    Some(d) => match spec_eat(s6, lit_body()) {
                                        None => None,
                                        Some(s7) => match spec_parse_quoted(s7) {
                                            None => None,
                                            Some((body, s8)) => match spec_eat(s8, lit_tags()) {
                                                None => None,
                                                Some(s9) => match spec_parse_tags(s9) {
                                                    None => None,
                                                    Some((ts_names, s10)) => match spec_eat(
                                                        s10,
                                                        seq!['}'],
                                                    ) {
                                                        None => None,
                                                        Some(s11) => Some(
                                                            (
                                                                EntryV {
                                                                    id,
                                                                    timestamp: ts,
                                                                    date: d,
                                                                    body,
                                                                    tags: ts_names,
                                                                },
                                                                s11,
                                                            ),
                                                        ),
                                                    },
                                                },
                                            },
                                        },
                                    },
                                },
                            },
                        },
                    },
                },
            },
        },
    }
}

/// A parsed entry consumes at least its braces.
pub proof fn lemma_parse_entry_shrinks(s: Seq<char>)
    ensures
        match spec_parse_entry(s) {
            Some((e, r)) => r.len() < s.len(),
            None => true,
        },
{
    if spec_parse_entry(s) is Some {
        let s1 = spec_eat(s, lit_id())->0;
        lemma_parse_digits_split(s1);
        let (id, s2) = spec_parse_number(s1)->0;
        let s3 = spec_eat(s2, lit_timestamp())->0;
        let (tstext, s4) = spec_parse_quoted(s3)->0;
        let s5 = spec_eat(s4, lit_date())->0;
        let (dtext, s6) = spec_parse_quoted(s5)->0;
        let s7 = spec_eat(s6, lit_body())->0;
        let (body, s8) = spec_parse_quoted(s7)->0;
        let s9 = spec_eat(s8, lit_tags())->0;
        let (ts_names, s10) = spec_parse_tags(s9)->0;
        lemma_parse_quoted_shrinks(s3);
        lemma_parse_quoted_shrinks(s5);
        lemma_parse_quoted_shrinks(s7);
        lemma_parse_tags_shrinks(s9);
    }
}

/// A parsed tag list consumes at least its closing bracket.
pub proof fn lemma_parse_tags_shrinks(s: Seq<char>)
    ensures
        match spec_parse_tags(s) {
            Some((ts, r)) => r.len() < s.len(),
            None => true,
        },
    decreases s.len(),
{
    if s.len() > 0 && s[0] != ']' {
        match spec_parse_quoted(s) {
            Some((t, r)) => {
                lemma_parse_quoted_shrinks(s);
                if r.len() > 0 && r[0] == ',' {
                    lemma_parse_tags_shrinks(r.drop_first());
                }
            },
            None => {},
        }
    }
}

/// Parses the tail of the record list: records separated by commas, ended
/// by the closing bracket (consumed).
pub open spec fn spec_parse_entry_list(s: Seq<char>) -> Option<(Seq<EntryV>, Seq<char>)>
    decreases s.len(),
    via spec_parse_entry_list_decreases
{
    if s.len() == 0 {
        None
    } else if s[0] == ']' {
        Some((Seq::empty(), s.drop_first()))
    } else {
        match spec_parse_entry(s) {
            Some((e, r)) => {
                if r.len() == 0 {
                    None
                } else if r[0] == ',' {
                    match spec_parse_entry_list(r.drop_first()) {
                        Some((es, r2)) => Some((seq![e] + es, r2)),
                        None => None,
                    }
                } else if r[0] == ']' {
                    Some((seq![e], r.drop_first()))
                } else {
                    None
                }
            },
            None => None,
        }
    }
}

#[via_fn]
proof fn spec_parse_entry_list_decreases(s: Seq<char>) {
    lemma_parse_entry_shrinks(s);
}

/// Parses a whole journal file: the bracketed record list and nothing
/// after it.
pub open spec fn spec_parse_journal(s: Seq<char>) -> Option<Seq<EntryV>> {
    match spec_eat(s, seq!['[']) {
        None => None,
        Some(r) => match spec_parse_entry_list(r) {
            Some((es, rest)) => if rest.len() == 0 {
                Some(es)
            } else {
                None
            },
            None => None,
        },
    }
}

/// A well-formed entry: a valid creation instant and date, so that both
/// have their fixed-width rendering.
pub open spec fn entry_wf(e: EntryV) -> bool {
    &&& e.timestamp.valid()
    &&& e.date.valid()
}

/// Consuming an emitted literal leaves exactly the tail.
pub proof fn lemma_eat_lit(lit: Seq<char>, t: Seq<char>)
    ensures
        spec_eat(lit + t, lit) == Some(t),
{
    let s = lit + t;
    assert(s.subrange(0, lit.len() as int) =~= lit);
    assert(s.subrange(lit.len() as int, s.len() as int) =~= t);
}

/// Parsing the digits of an emitted number stops at the first non-digit.
pub proof fn lemma_parse_digits_of(d: Seq<char>, t: Seq<char>)
    requires
        all_digits(d),
        t.len() == 0 || !is_digit(t[0]),
    ensures
        spec_parse_digits(d + t) == (d, t),
    decreases d.len(),
{
    let s = d + t;
    if d.len() == 0 {
        assert(s =~= t);
        if s.len() > 0 {
            assert(!is_digit(s[0]));
        }
        assert(spec_parse_digits(s) == (Seq::<char>::empty(), s));
        assert(Seq::<char>::empty() =~= d);
    } else {
        assert(s[0] == d[0]);
        assert(is_digit(s[0]));
        let dr = d.drop_first();
        assert(forall|i: int| 0 <= i < dr.len() ==> dr[i] == #[trigger] d[i + 1]);
        lemma_parse_digits_of(dr, t);
        assert(s.drop_first() =~= dr + t);
        let (d2, r2) = spec_parse_digits(s.drop_first());
        assert(d2 == dr && r2 == t);
        assert(seq![s[0]] + dr =~= d);
    }
}

/// Parsing an emitted number returns its value, when what follows starts
/// with no digit.
pub proof fn lemma_parse_number_of(n: nat, t: Seq<char>)
    requires
        t.len() == 0 || !is_digit(t[0]),
    ensures
        spec_parse_number(spec_dec_digits(n) + t) == Some((n, t)),
{
    lemma_dec_digits(n);
    lemma_parse_digits_of(spec_dec_digits(n), t);
}

/// Parsing an emitted quoted string returns its content.
pub proof fn lemma_parse_quoted_of(u: Seq<char>, t: Seq<char>)
    ensures
        spec_parse_quoted(spec_emit_string(u) + t) == Some((u, t)),
{
    let s = spec_emit_string(u) + t;
    assert(s =~= seq!['"'] + (spec_escape(u) + seq!['"'] + t));
    lemma_eat_lit(seq!['"'], spec_escape(u) + seq!['"'] + t);
    lemma_parse_escaped(u, t);
}

/// Parsing an emitted tag list (with its closing bracket) returns the
/// names.
pub proof fn lemma_parse_tags_of(ts: Seq<Seq<char>>, t: Seq<char>)
    ensures
        spec_parse_tags(spec_emit_tags(ts) + seq![']'] + t) == Some((ts, t)),
    decreases ts.len(),
{
    let s = spec_emit_tags(ts) + seq![']'] + t;
    if ts.len() == 0 {
        assert(s =~= seq![']'] + t);
        assert(s[0] == ']');
        assert(s.drop_first() =~= t);
        assert(spec_parse_tags(s) == Some((Seq::<Seq<char>>::empty(), t)));
        assert(Seq::<Seq<char>>::empty() =~= ts);
    } else if ts.len() == 1 {
        assert(s =~= spec_emit_string(ts[0]) + (seq![']'] + t));
        lemma_parse_quoted_of(ts[0], seq![']'] + t);
        assert(s[0] == '"');
        let r = seq![']'] + t;
        assert(r[0] == ']');
        assert(r.drop_first() =~= t);
        assert(seq![ts[0]] =~= ts);
    } else {
        let rest = ts.drop_first();
        lemma_parse_tags_of(rest, t);
        let inner = spec_emit_tags(rest) + seq![']'] + t;
        assert(s =~= spec_emit_string(ts[0]) + (seq![','] + inner));
        lemma_parse_quoted_of(ts[0], seq![','] + inner);
        assert(s[0] == '"');
        let r = seq![','] + inner;
        assert(r[0] == ',');
        assert(r.drop_first() =~= inner);
        assert(seq![ts[0]] + rest =~= ts);
    }
}

} // verus!

verus! {

/// A character that stands for itself in the format: no quote, no
/// backslash, no control character.
pub open spec fn plain_char(c: char) -> bool {
    c != '"' && c != '\\' && (c as u32) >= 32
}

/// Digits are plain.
proof fn lemma_digit_plain(c: char)
    requires
        is_digit(c),
    ensures
        plain_char(c),
{
}

/// The rendering of a valid date consists of plain characters.
pub proof fn lemma_date_text_plain(d: Date)
    requires
        d.valid(),
    ensures
        forall|i: int| 0 <= i < spec_date_text(d).len() ==> plain_char(#[trigger] spec_date_text(d)[i]),
{
    crate::num::lemma_pow10_small();
    crate::num::lemma_padded(d.year as nat, 4);
    crate::num::lemma_padded(d.month as nat, 2);
    crate::num::lemma_padded(d.day as nat, 2);
    let t = spec_date_text(d);
    assert forall|i: int| 0 <= i < t.len() implies plain_char(#[trigger] t[i]) by {
        if i < 4 {
            assert(t[i] == spec_padded(d.year as nat, 4)[i]);
        } else if i == 4 {
            assert(t[i] == '-');
        } else if i < 7 {
            assert(t[i] == spec_padded(d.month as nat, 2)[i - 5]);
        } else if i == 7 {
            assert(t[i] == '-');
        } else {
            assert(t[i] == spec_padded(d.day as nat, 2)[i - 8]);
        }
    }
}

/// The rendering of a valid timestamp consists of plain characters.
pub proof fn lemma_timestamp_text_plain(ts: Timestamp)
    requires
        ts.valid(),
    ensures
        forall|i: int| 0 <= i < spec_timestamp_text(ts).len() ==> plain_char(
            #[trigger] spec_timestamp_text(ts)[i],
        ),
{
    crate::num::lemma_pow10_small();
    lemma_date_text_parse(ts.date);
    lemma_date_text_plain(ts.date);
    crate::num::lemma_padded(ts.hour as nat, 2);
    crate::num::lemma_padded(ts.minute as nat, 2);
    crate::num::lemma_padded(ts.second as nat, 2);
    let t = spec_timestamp_text(ts);
    assert forall|i: int| 0 <= i < t.len() implies plain_char(#[trigger] t[i]) by {
        if i < 10 {
            assert(t[i] == spec_date_text(ts.date)[i]);
        } else if i == 10 {
            assert(t[i] == 'T');
        } else if i < 13 {
            assert(t[i] == spec_padded(ts.hour as nat, 2)[i - 11]);
        } else if i == 13 {
            assert(t[i] == ':');
        } else if i < 16 {
            assert(t[i] == spec_padded(ts.minute as nat, 2)[i - 14]);
        } else if i == 16 {
            assert(t[i] == ':');
        } else if i < 19 {
            assert(t[i] == spec_padded(ts.second as nat, 2)[i - 17]);
        } else {
            assert(t[i] == 'Z');
        }
    }
}

/// Parsing an emitted entry record returns the entry, with the tail
/// untouched.
#[verifier::rlimit(60)]
pub proof fn lemma_parse_entry_of(e: EntryV, t: Seq<char>)
    requires
        entry_wf(e),
    ensures
        spec_parse_entry(spec_emit_entry(e) + t) == Some((e, t)),
{
    let s = spec_emit_entry(e) + t;
    let tst = spec_timestamp_text(e.timestamp);
    let dt = spec_date_text(e.date);
    let a9 = spec_emit_tags(e.tags) + seq![']'] + (seq!['}'] + t);
    let a8 = lit_tags() + a9;
    let a7 = spec_emit_string(e.body) + a8;
    let a6 = lit_body() + a7;
    let a5 = spec_emit_string(dt) + a6;
    let a4 = lit_date() + a5;
    let a3 = spec_emit_string(tst) + a4;
    let a2 = lit_timestamp() + a3;
    let a1 = spec_dec_digits(e.id) + a2;
    assert(s =~= lit_id() + a1);
    lemma_eat_lit(lit_id(), a1);
    assert(a1 =~= spec_dec_digits(e.id) + a2);
    assert(a2[0] == ',');
    lemma_parse_number_of(e.id, a2);
    lemma_eat_lit(lit_timestamp(), a3);
    lemma_timestamp_text_plain(e.timestamp);
    lemma_escape_plain(tst);
    lemma_parse_quoted_of(tst, a4);
    lemma_timestamp_text_parse(e.timestamp);
    lemma_eat_lit(lit_date(), a5);
    lemma_date_text_plain(e.date);
    lemma_escape_plain(dt);
    lemma_parse_quoted_of(dt, a6);
    lemma_date_text_parse(e.date);
    lemma_eat_lit(lit_body(), a7);
    lemma_parse_quoted_of(e.body, a8);
    lemma_eat_lit(lit_tags(), a9);
    lemma_parse_tags_of(e.tags, seq!['}'] + t);
    lemma_eat_lit(seq!['}'], t);
    assert((seq!['}'] + t).subrange(1, (seq!['}'] + t).len() as int) =~= t);
    match spec_parse_entry(s) {
        Some((pe, pr)) => {
            assert(pe =~= e);
            assert(pr == t);
        },
        None => {
            assert(false);
        },
    }
}

/// Parsing an emitted record list (with its closing bracket) returns the
/// entries.
#[verifier::rlimit(100)]
pub proof fn lemma_parse_entry_list_of(es: Seq<EntryV>, t: Seq<char>)
    requires
        forall|i: int| 0 <= i < es.len() ==> entry_wf(#[trigger] es[i]),
    ensures
        spec_parse_entry_list(spec_emit_entry_list(es) + seq![']'] + t) == Some((es, t)),
    decreases es.len(),
{
    let s = spec_emit_entry_list(es) + seq![']'] + t;
    if es.len() == 0 {
        assert(s =~= seq![']'] + t);
        assert(s[0] == ']');
        assert(s.drop_first() =~= t);
        assert(Seq::<EntryV>::empty() =~= es);
    } else if es.len() == 1 {
        let r = seq![']'] + t;
        assert(spec_parse_entry(s) == Some((es[0], r))) by {
            assert(s =~= spec_emit_entry(es[0]) + (seq![']'] + t));
            lemma_parse_entry_of(es[0], seq![']'] + t);
        }
        assert(s[0] == '{') by {
            assert(s[0] == spec_emit_entry(es[0])[0]);
        }
        assert(r[0] == ']');
        assert(r.drop_first() =~= t);
        assert(seq![es[0]] =~= es);
    } else {
        let rest = es.drop_first();
        assert(forall|i: int| 0 <= i < rest.len() ==> entry_wf(#[trigger] rest[i]) && rest[i]
            == es[i + 1]);
        let inner = spec_emit_entry_list(rest) + seq![']'] + t;
        assert(spec_parse_entry_list(inner) == Some((rest, t))) by {
            lemma_parse_entry_list_of(rest, t);
        }
        let r = seq![','] + inner;
        assert(spec_parse_entry(s) == Some((es[0], r))) by {
            assert(s =~= spec_emit_entry(es[0]) + (seq![','] + inner));
            lemma_parse_entry_of(es[0], seq![','] + inner);
        }
        assert(s[0] == '{') by {
            assert(s[0] == spec_emit_entry(es[0])[0]);
        }
        assert(r[0] == ',');
        assert(r.drop_first() =~= inner);
        assert(seq![es[0]] + rest =~= es);
    }
}

/// Round trip: parsing the rendering of a sequence of well-formed entries
/// yields that same sequence, structurally equal.
pub proof fn lemma_journal_roundtrip(es: Seq<EntryV>)
    requires
        forall|i: int| 0 <= i < es.len() ==> entry_wf(#[trigger] es[i]),
    ensures
        spec_parse_journal(spec_emit_entries(es)) == Some(es),
{
    let s = spec_emit_entries(es);
    let a = spec_emit_entry_list(es) + seq![']'] + Seq::<char>::empty();
    assert(s =~= seq!['['] + a);
    lemma_eat_lit(seq!['['], a);
    lemma_parse_entry_list_of(es, Seq::empty());
}

} // verus!

verus! {

/// Escapes `s` for the format.
fn escape_text(s: &str) -> (r: String)
    ensures
        r@ == spec_escape(s@),
{
    let n = s.unicode_len();
    let mut out = String::new();
    proof {
        assert(s@.subrange(0, n as int) =~= s@);
    }
    let mut i: usize = 0;
    while i < n
        invariant
            0 <= i <= n,
            n == s@.len(),
            spec_escape(s@) == out@ + spec_escape(s@.subrange(i as int, n as int)),
        decreases n - i,
    {
        let ghost u = s@.subrange(i as int, n as int);
        let ghost before = out@;
        let c = s.get_char(i);
        assert(u[0] == c);
        if c == '"' {
            out.append("\\\"");
            proof {
                reveal_strlit("\\\"");
                assert(out@ =~= before + spec_escape_char(c));
            }
        } else if c == '\\' {
            out.append("\\\\");
            proof {
                reveal_strlit("\\\\");
                assert(out@ =~= before + spec_escape_char(c));
            }
        } else if (c as u32) < 32 {
            let code = c as u32;
            out.append("\\u00");
            let table = "0123456789abcdef";
            proof {
                reveal_strlit("\\u00");
                reveal_strlit("0123456789abcdef");
                assert(table@[(code / 16) as int] == hex_char((code / 16) as int));
                assert(table@[(code % 16) as int] == hex_char((code % 16) as int));
            }
            let h1 = table.substring_char((code / 16) as usize, (code / 16) as usize + 1);
            out.append(h1);
            let h2 = table.substring_char((code % 16) as usize, (code % 16) as usize + 1);
            out.append(h2);
            proof {
                assert(out@ =~= before + spec_escape_char(c));
            }
        } else {
            let piece = s.substring_char(i, i + 1);
            out.append(piece);
            proof {
                assert(piece@ =~= seq![c]);
                assert(out@ =~= before + spec_escape_char(c));
            }
        }
        proof {
            assert(u.drop_first() =~= s@.subrange(i + 1, n as int));
            assert(spec_escape(u) == spec_escape_char(c) + spec_escape(u.drop_first()));
        }
        i += 1;
    }
    proof {
        assert(s@.subrange(n as int, n as int) =~= Seq::<char>::empty());
    }
    out
}

/// Escapes `s` as string content for the settings file, which shares the
/// entry format's escape rules.
pub(crate) fn escape_for_config(s: &str) -> (r: String)
    ensures
        r@ == spec_escape(s@),
{
    escape_text(s)
}

/// Renders `s` as a quoted, escaped string.
fn emit_string(out: &mut String, s: &str)
    ensures
        final(out)@ == old(out)@ + spec_emit_string(s@),
{
    out.append("\"");
    let e = escape_text(s);
    out.append(e.as_str());
    out.append("\"");
    proof {
        reveal_strlit("\"");
        assert(out@ =~= old(out)@ + spec_emit_string(s@));
    }
}

/// Renders the tag names, quoted and comma-separated, onto `out`.
fn emit_tags(out: &mut String, tags: &Vec<Tag>)
    ensures
        final(out)@ == old(out)@ + spec_emit_tags(tag_names(tags@)),
{
    let n = tags.len();
    let ghost all = tag_names(tags@);
    let ghost base = out@;
    let mut i: usize = 0;
    while i < n
        invariant
            0 <= i <= n,
            n == tags@.len(),
            all == tag_names(tags@),
            all.len() == n,
            i == 0 ==> out@ == base,
            0 < i < n ==> spec_emit_tags(all) == out@.skip(base.len() as int)
                + seq![','] + spec_emit_tags(all.subrange(i as int, n as int)) && out@.len()
                >= base.len() && out@.subrange(0, base.len() as int) == base,
            i == n && n > 0 ==> out@ == base + spec_emit_tags(all),
        decreases n - i,
    {
        let ghost before = out@;
        if i > 0 {
            out.append(",");
            proof {
                reveal_strlit(",");
            }
        }
        emit_string(out, tags[i].name.as_str());
        proof {
            let u = all.subrange(i as int, n as int);
            assert(u[0] == all[i as int]);
            assert(all[i as int] == tags@[i as int]@);
            if i + 1 < n {
                assert(u.drop_first() =~= all.subrange(i + 1, n as int));
                assert(spec_emit_tags(u) == spec_emit_string(u[0]) + seq![','] + spec_emit_tags(
                    u.drop_first(),
                ));
            } else {
                assert(u.len() == 1);
                assert(spec_emit_tags(u) == spec_emit_string(u[0]));
            }
            if i == 0 {
                if n == 1 {
                    assert(out@ =~= base + spec_emit_tags(all));
                } else {
                    assert(all.subrange(0, n as int) =~= all);
                    assert(spec_emit_tags(all) == spec_emit_string(all[0]) + seq![',']
                        + spec_emit_tags(all.subrange(1, n as int)));
                    assert(spec_emit_tags(all) =~= out@.skip(base.len() as int) + seq![',']
                        + spec_emit_tags(all.subrange(1, n as int)));
                    assert(out@.subrange(0, base.len() as int) =~= base);
                }
            } else {
                if i + 1 == n {
                    assert(out@ =~= base + spec_emit_tags(all));
                } else {
                    assert(spec_emit_tags(all) =~= out@.skip(base.len() as int) + seq![',']
                        + spec_emit_tags(all.subrange(i + 1, n as int)));
                    assert(out@.subrange(0, base.len() as int) =~= base);
                }
            }
        }
        i += 1;
    }
    proof {
        if n == 0 {
            assert(spec_emit_tags(all) =~= Seq::<char>::empty());
            assert(out@ =~= base + spec_emit_tags(all));
        }
    }
}

/// Renders one entry record onto `out`.
#[verifier::rlimit(60)]
fn emit_entry(out: &mut String, e: &Entry)
    ensures
        final(out)@ == old(out)@ + spec_emit_entry(e@),
{
    let ghost base = out@;
    out.append("{\"id\":");
    let id_text = fmt_usize(e.id);
    out.append(id_text.as_str());
    out.append(",\"timestamp\":");
    let ts_text = timestamp_to_text(&e.timestamp);
    emit_string(out, ts_text.as_str());
    out.append(",\"date\":");
    let d_text = date_to_text(&e.date);
    emit_string(out, d_text.as_str());
    out.append(",\"body\":");
    emit_string(out, e.body.as_str());
    out.append(",\"tags\":[");
    emit_tags(out, &e.tags);
    out.append("]}");
    proof {
        reveal_strlit("{\"id\":");
        reveal_strlit(",\"timestamp\":");
        reveal_strlit(",\"date\":");
        reveal_strlit(",\"body\":");
        reveal_strlit(",\"tags\":[");
        reveal_strlit("]}");
        assert("{\"id\":"@ =~= lit_id());
        assert(",\"timestamp\":"@ =~= lit_timestamp());
        assert(",\"date\":"@ =~= lit_date());
        assert(",\"body\":"@ =~= lit_body());
        assert(",\"tags\":["@ =~= lit_tags());
        assert("]}"@ =~= seq![']', '}']);
        assert(out@ =~= base + spec_emit_entry(e@));
    }
}

/// Renders a journal's entry sequence in the persistence format.
#[verifier::rlimit(100)]
pub fn serialize_entries(entries: &Vec<Entry>) -> (r: String)
    ensures
        r@ == spec_emit_entries(entries.deep_view()),
{
    let ghost all = entries.deep_view();
    let mut out = String::new();
    out.append("[");
    proof {
        reveal_strlit("[");
        assert(out@ =~= seq!['[']);
        assert(all.len() == entries@.len());
    }
    let ghost base = out@;
    let n = entries.len();
    let mut i: usize = 0;
    while i < n
        invariant
            0 <= i <= n,
            n == entries@.len(),
            all == entries.deep_view(),
            all.len() == n,
            base == seq!['['],
            i == 0 ==> out@ == base,
            0 < i < n ==> spec_emit_entry_list(all) == out@.skip(base.len() as int)
                + seq![','] + spec_emit_entry_list(all.subrange(i as int, n as int)) && out@.len()
                >= base.len() && out@.subrange(0, base.len() as int) == base,
            i == n && n > 0 ==> out@ == base + spec_emit_entry_list(all),
        decreases n - i,
    {
        if i > 0 {
            out.append(",");
            proof {
                reveal_strlit(",");
            }
        }
        emit_entry(&mut out, &entries[i]);
        proof {
            let u = all.subrange(i as int, n as int);
            assert(u[0] == all[i as int]);
            assert(all[i as int] == entries@[i as int]@);
            if i + 1 < n {
                assert(u.drop_first() =~= all.subrange(i + 1, n as int));
                assert(spec_emit_entry_list(u) == spec_emit_entry(u[0]) + seq![',']
                    + spec_emit_entry_list(u.drop_first()));
            } else {
                assert(u.len() == 1);
                assert(spec_emit_entry_list(u) == spec_emit_entry(u[0]));
            }
            if i == 0 {
                if n == 1 {
                    assert(out@ =~= base + spec_emit_entry_list(all));
                } else {
                    assert(all.subrange(0, n as int) =~= all);
                    assert(spec_emit_entry_list(all) == spec_emit_entry(all[0]) + seq![',']
                        + spec_emit_entry_list(all.subrange(1, n as int)));
                    assert(spec_emit_entry_list(all) =~= out@.skip(base.len() as int) + seq![',']
                        + spec_emit_entry_list(all.subrange(1, n as int)));
                    assert(out@.subrange(0, base.len() as int) =~= base);
                }
            } else {
                if i + 1 == n {
                    assert(out@ =~= base + spec_emit_entry_list(all));
                } else {
                    assert(spec_emit_entry_list(all) =~= out@.skip(base.len() as int) + seq![',']
                        + spec_emit_entry_list(all.subrange(i + 1, n as int)));
                    assert(out@.subrange(0, base.len() as int) =~= base);
                }
            }
        }
        i += 1;
    }
    proof {
        if n == 0 {
            assert(spec_emit_entry_list(all) =~= Seq::<char>::empty());
        }
        assert(out@ =~= base + spec_emit_entry_list(all));
    }
    out.append("]");
    proof {
        reveal_strlit("]");
        assert(out@ =~= spec_emit_entries(all));
    }
    out
}

} // verus!

verus! {

/// The exact digit-run characterization: a digit prefix ending at a
/// non-digit (or the end) is what digit splitting returns.
proof fn lemma_parse_digits_at(s: Seq<char>, k: int)
    requires
        0 <= k <= s.len(),
        forall|j: int| 0 <= j < k ==> is_digit(#[trigger] s[j]),
        k == s.len() || !is_digit(s[k]),
    ensures
        spec_parse_digits(s) == (s.subrange(0, k), s.subrange(k, s.len() as int)),
    decreases s.len(),
{
    if k == 0 {
        assert(s.subrange(0, 0) =~= Seq::<char>::empty());
        assert(s.subrange(0, s.len() as int) =~= s);
    } else {
        let t = s.drop_first();
        assert(forall|j: int| 0 <= j < k - 1 ==> is_digit(#[trigger] t[j]));
        lemma_parse_digits_at(t, k - 1);
        assert(t.subrange(0, k - 1) =~= s.subrange(1, k));
        assert(t.subrange(k - 1, t.len() as int) =~= s.subrange(k, s.len() as int));
        assert(seq![s[0]] + s.subrange(1, k) =~= s.subrange(0, k));
    }
}

/// Consumes the exact literal at position `i`, if it stands there.
pub(crate) fn eat_lit_at(s: &str, i: usize, lit: &str) -> (r: Option<usize>)
    requires
        i <= s@.len(),
    ensures
        match r {
            Some(j) => i <= j <= s@.len() && spec_eat(s@.subrange(i as int, s@.len() as int), lit@)
                == Some(s@.subrange(j as int, s@.len() as int)),
            None => spec_eat(s@.subrange(i as int, s@.len() as int), lit@) is None,
        },
{
    let n = s.unicode_len();
    let m = lit.unicode_len();
    let ghost suf = s@.subrange(i as int, n as int);
    if m > n - i {
        return None;
    }
    let mut t: usize = 0;
    while t < m
        invariant
            0 <= t <= m,
            i + m <= n,
            n == s@.len(),
            m == lit@.len(),
            suf == s@.subrange(i as int, n as int),
            forall|j: int| 0 <= j < t ==> suf[j] == lit@[j],
        decreases m - t,
    {
        assert(suf[t as int] == s@[i + t]);
        if s.get_char(i + t) != lit.get_char(t) {
            proof {
                assert(suf.subrange(0, m as int)[t as int] != lit@[t as int]);
            }
            return None;
        }
        t += 1;
    }
    proof {
        assert(suf.subrange(0, m as int) =~= lit@);
        assert(suf.subrange(m as int, suf.len() as int) =~= s@.subrange(
            (i + m) as int,
            n as int,
        ));
    }
    Some(i + m)
}

/// Parses the number at position `i`: the longest digit run, valued.
fn parse_number_at(s: &str, i: usize) -> (r: Option<(usize, usize)>)
    requires
        i <= s@.len(),
    ensures
        ({
            let suf = s@.subrange(i as int, s@.len() as int);
            match r {
                Some((v, j)) => i <= j <= s@.len() && spec_parse_number(suf) == Some(
                    (v as nat, s@.subrange(j as int, s@.len() as int)),
                ),
                None => match spec_parse_number(suf) {
                    Some((v, rest)) => v > usize::MAX,
                    None => true,
                },
            }
        }),
{
    let n = s.unicode_len();
    let ghost suf = s@.subrange(i as int, n as int);
    let mut j: usize = i;
    while j < n && char_is_digit(s.get_char(j))
        invariant
            i <= j <= n,
            n == s@.len(),
            forall|m: int| i <= m < j ==> is_digit(#[trigger] s@[m]),
        decreases n - j,
    {
        j += 1;
    }
    proof {
        assert(forall|m: int| 0 <= m < j - i ==> is_digit(#[trigger] suf[m]));
        if j < n {
            assert(suf[(j - i) as int] == s@[j as int]);
        }
        lemma_parse_digits_at(suf, j - i);
        assert(suf.subrange(0, (j - i) as int) =~= s@.subrange(i as int, j as int));
        assert(suf.subrange((j - i) as int, suf.len() as int) =~= s@.subrange(
            j as int,
            n as int,
        ));
    }
    if j == i {
        return None;
    }
    let d = s.substring_char(i, j);
    match crate::num::parse_usize(d) {
        Some(v) => Some((v, j)),
        None => {
            proof {
                crate::num::lemma_digits_val_bound(d@);
            }
            None
        },
    }
}

fn char_is_digit(c: char) -> (r: bool)
    ensures
        r == is_digit(c),
{
    let v = c as u32;
    48 <= v && v <= 57
}

fn hex_digit_value(c: char) -> (r: Option<u32>)
    ensures
        match r {
            Some(v) => hex_val(c) == v as int && v < 16,
            None => hex_val(c) < 0,
        },
{
    let v = c as u32;
    if 48 <= v && v <= 57 {
        Some(v - 48)
    } else if 97 <= v && v <= 102 {
        Some(v - 97 + 10)
    } else {
        None
    }
}

/// Appends the control character with code `v`.
fn append_ctrl(out: &mut String, v: usize)
    requires
        v < 32,
    ensures
        final(out)@ == old(out)@.push(ctrl_char(v as int)),
{
    let table =
        "\x00\x01\x02\x03\x04\x05\x06\x07\x08\x09\x0a\x0b\x0c\x0d\x0e\x0f\x10\x11\x12\x13\x14\x15\x16\x17\x18\x19\x1a\x1b\x1c\x1d\x1e\x1f";
    proof {
        reveal_strlit(
            "\x00\x01\x02\x03\x04\x05\x06\x07\x08\x09\x0a\x0b\x0c\x0d\x0e\x0f\x10\x11\x12\x13\x14\x15\x16\x17\x18\x19\x1a\x1b\x1c\x1d\x1e\x1f",
        );
        assert(table@[v as int] == ctrl_char(v as int));
    }
    let piece = table.substring_char(v, v + 1);
    proof {
        assert(piece@ =~= seq![ctrl_char(v as int)]);
    }
    out.append(piece);
    proof {
        assert(out@ =~= old(out)@.push(ctrl_char(v as int)));
    }
}

/// Parses escaped string content from position `i` up to and including
/// its closing quote.
#[verifier::rlimit(60)]
pub(crate) fn parse_string_at(s: &str, i: usize) -> (r: Option<(String, usize)>)
    requires
        i <= s@.len(),
    ensures
        ({
            let suf = s@.subrange(i as int, s@.len() as int);
            match r {
                Some((u, j)) => i <= j <= s@.len() && spec_parse_string(suf) == Some(
                    (u@, s@.subrange(j as int, s@.len() as int)),
                ),
                None => spec_parse_string(suf) is None,
            }
        }),
{
    let n = s.unicode_len();
    let mut out = String::new();
    let mut cur: usize = i;
    proof {
        assert(Seq::<char>::empty() + s@.subrange(i as int, n as int) =~= s@.subrange(
            i as int,
            n as int,
        ));
    }
    loop
        invariant
            i <= cur <= n,
            n == s@.len(),
            match spec_parse_string(s@.subrange(cur as int, n as int)) {
                Some((u, r)) => spec_parse_string(s@.subrange(i as int, n as int)) == Some(
                    (out@ + u, r),
                ),
                None => spec_parse_string(s@.subrange(i as int, n as int)) is None,
            },
        decreases n - cur,
    {
        let ghost u = s@.subrange(cur as int, n as int);
        if cur == n {
            assert(u.len() == 0);
            return None;
        }
        let c = s.get_char(cur);
        assert(u[0] == c);
        if c == '"' {
            proof {
                assert(u.drop_first() =~= s@.subrange(cur + 1, n as int));
                assert(out@ + Seq::<char>::empty() =~= out@);
            }
            return Some((out, cur + 1));
        }
        if c == '\\' {
            if cur + 1 >= n {
                assert(u.len() == 1);
                assert(spec_parse_string(u) is None);
                return None;
            }
            let c2 = s.get_char(cur + 1);
            assert(u[1] == c2);
            if c2 == '"' || c2 == '\\' {
                let ghost before = out@;
                let piece = s.substring_char(cur + 1, cur + 2);
                proof {
                    assert(piece@ =~= seq![c2]);
                }
                out.append(piece);
                proof {
                    assert(u.subrange(2, u.len() as int) =~= s@.subrange(cur + 2, n as int));
                    assert(out@ =~= before.push(c2));
                    match spec_parse_string(s@.subrange(cur + 2, n as int)) {
                        Some((w, r)) => {
                            assert(spec_parse_string(u) == Some((seq![c2] + w, r)));
                            assert(out@ + w =~= before + (seq![c2] + w));
                        },
                        None => {},
                    }
                }
                cur = cur + 2;
            } else {
                if n - cur < 6 || c2 != 'u' {
                    assert(spec_parse_string(u) is None);
                    return None;
                }
                if s.get_char(cur + 2) != '0' || s.get_char(cur + 3) != '0' {
                    assert(u[2] == s@[cur + 2] && u[3] == s@[cur + 3]);
                    assert(spec_parse_string(u) is None);
                    return None;
                }
                assert(u[2] == '0' && u[3] == '0');
                let h1 = match hex_digit_value(s.get_char(cur + 4)) {
                    Some(v) => v,
                    None => {
                        assert(u[4] == s@[cur + 4]);
                        assert(spec_parse_string(u) is None);
                        return None;
                    },
                };
                assert(u[4] == s@[cur + 4]);
                if h1 >= 2 {
                    assert(spec_parse_string(u) is None);
                    return None;
                }
                let h2 = match hex_digit_value(s.get_char(cur + 5)) {
                    Some(v) => v,
                    None => {
                        assert(u[5] == s@[cur + 5]);
                        assert(spec_parse_string(u) is None);
                        return None;
                    },
                };
                assert(u[5] == s@[cur + 5]);
                let v = (h1 * 16 + h2) as usize;
                let ghost before = out@;
                append_ctrl(&mut out, v);
                proof {
                    assert(u.subrange(6, u.len() as int) =~= s@.subrange(cur + 6, n as int));
                    assert(v as int == hex_val(u[4]) * 16 + hex_val(u[5]));
                    match spec_parse_string(s@.subrange(cur + 6, n as int)) {
                        Some((w, r)) => {
                            assert(spec_parse_string(u) == Some(
                                (seq![ctrl_char(v as int)] + w, r),
                            ));
                            assert(out@ + w =~= before + (seq![ctrl_char(v as int)] + w));
                        },
                        None => {},
                    }
                }
                cur = cur + 6;
            }
        } else if (c as u32) >= 32 {
            let ghost before = out@;
            let piece = s.substring_char(cur, cur + 1);
            proof {
                assert(piece@ =~= seq![c]);
            }
            out.append(piece);
            proof {
                assert(u.drop_first() =~= s@.subrange(cur + 1, n as int));
                assert(out@ =~= before.push(c));
                match spec_parse_string(s@.subrange(cur + 1, n as int)) {
                    Some((w, r)) => {
                        assert(spec_parse_string(u) == Some((seq![c] + w, r)));
                        assert(out@ + w =~= before + (seq![c] + w));
                    },
                    None => {},
                }
            }
            cur = cur + 1;
        } else {
            assert(spec_parse_string(u) is None);
            return None;
        }
    }
}

/// Parses a quoted string at position `i`: the opening quote, the
/// content, the closing quote.
fn parse_quoted_at(s: &str, i: usize) -> (r: Option<(String, usize)>)
    requires
        i <= s@.len(),
    ensures
        ({
            let suf = s@.subrange(i as int, s@.len() as int);
            match r {
                Some((u, j)) => i < j <= s@.len() && spec_parse_quoted(suf) == Some(
                    (u@, s@.subrange(j as int, s@.len() as int)),
                ),
                None => spec_parse_quoted(suf) is None,
            }
        }),
{
    let n = s.unicode_len();
    let ghost suf = s@.subrange(i as int, n as int);
    if i == n {
        assert(spec_eat(suf, seq!['"']) is None);
        return None;
    }
    if s.get_char(i) != '"' {
        proof {
            assert(suf[0] == s@[i as int]);
            assert(spec_eat(suf, seq!['"']) is None) by {
                if spec_eat(suf, seq!['"']) is Some {
                    assert(suf.subrange(0, 1) == seq!['"']);
                    assert(suf.subrange(0, 1)[0] == suf[0]);
                }
            }
        }
        return None;
    }
    proof {
        assert(suf.subrange(0, 1) =~= seq!['"']);
        assert(suf.subrange(1, suf.len() as int) =~= s@.subrange(i + 1, n as int));
    }
    match parse_string_at(s, i + 1) {
        Some((u, j)) => Some((u, j)),
        None => None,
    }
}

} // verus!

verus! {

/// Parses the tail of a tag list at position `i` (tags separated by
/// commas, closed by the bracket).
#[verifier::rlimit(60)]
fn parse_tags_at(s: &str, i: usize) -> (r: Option<(Vec<Tag>, usize)>)
    requires
        i <= s@.len(),
    ensures
        ({
            let suf = s@.subrange(i as int, s@.len() as int);
            match r {
                Some((ts, j)) => i <= j <= s@.len() && spec_parse_tags(suf) == Some(
                    (tag_names(ts@), s@.subrange(j as int, s@.len() as int)),
                ),
                None => spec_parse_tags(suf) is None,
            }
        }),
{
    let n = s.unicode_len();
    let mut out: Vec<Tag> = Vec::new();
    let mut cur: usize = i;
    proof {
        assert(tag_names(out@) =~= Seq::<Seq<char>>::empty());
    }
    loop
        invariant
            i <= cur <= n,
            n == s@.len(),
            match spec_parse_tags(s@.subrange(cur as int, n as int)) {
                Some((ts, r)) => spec_parse_tags(s@.subrange(i as int, n as int)) == Some(
                    (tag_names(out@) + ts, r),
                ),
                None => spec_parse_tags(s@.subrange(i as int, n as int)) is None,
            },
        decreases n - cur,
    {
        let ghost u = s@.subrange(cur as int, n as int);
        if cur == n {
            assert(u.len() == 0);
            return None;
        }
        let c = s.get_char(cur);
        assert(u[0] == c);
        if c == ']' {
            proof {
                assert(u.drop_first() =~= s@.subrange(cur + 1, n as int));
                assert(tag_names(out@) + Seq::<Seq<char>>::empty() =~= tag_names(out@));
            }
            return Some((out, cur + 1));
        }
        let (content, j) = match parse_quoted_at(s, cur) {
            Some(p) => p,
            None => {
                assert(spec_parse_tags(u) is None);
                return None;
            },
        };
        proof {
            assert(s@.subrange(cur as int, n as int) == u);
        }
        if j == n {
            proof {
                let (t0, r0) = spec_parse_quoted(u)->0;
                assert(r0 =~= Seq::<char>::empty());
                assert(spec_parse_tags(u) is None);
            }
            return None;
        }
        let c2 = s.get_char(j);
        proof {
            let (t0, r0) = spec_parse_quoted(u)->0;
            assert(r0 == s@.subrange(j as int, n as int));
            assert(r0[0] == c2);
        }
        let ghost before = out@;
        if c2 == ',' {
            out.push(Tag::new(content));
            proof {
                let (t0, r0) = spec_parse_quoted(u)->0;
                assert(r0.drop_first() =~= s@.subrange(j + 1, n as int));
                assert(tag_names(out@) =~= tag_names(before).push(t0));
                match spec_parse_tags(s@.subrange(j + 1, n as int)) {
                    Some((ts2, r2)) => {
                        assert(spec_parse_tags(u) == Some((seq![t0] + ts2, r2)));
                        assert(tag_names(out@) + ts2 =~= tag_names(before) + (seq![t0] + ts2));
                    },
                    None => {},
                }
            }
            cur = j + 1;
        } else if c2 == ']' {
            out.push(Tag::new(content));
            proof {
                let (t0, r0) = spec_parse_quoted(u)->0;
                assert(r0.drop_first() =~= s@.subrange(j + 1, n as int));
                assert(spec_parse_tags(u) == Some((seq![t0], r0.drop_first())));
                assert(tag_names(out@) =~= tag_names(before).push(t0));
                assert(tag_names(out@) =~= tag_names(before) + seq![t0]);
            }
            return Some((out, j + 1));
        } else {
            assert(spec_parse_tags(u) is None);
            return None;
        }
    }
}

/// Parses one entry record at position `i`.
#[verifier::rlimit(100)]
fn parse_entry_at(s: &str, i: usize) -> (r: Option<(Entry, usize)>)
    requires
        i <= s@.len(),
    ensures
        ({
            let suf = s@.subrange(i as int, s@.len() as int);
            match r {
                Some((e, j)) => i <= j <= s@.len() && spec_parse_entry(suf) == Some(
                    (e@, s@.subrange(j as int, s@.len() as int)),
                ),
                None => match spec_parse_entry(suf) {
                    Some((ev, rest)) => ev.id > usize::MAX,
                    None => true,
                },
            }
        }),
{
    let ghost suf = s@.subrange(i as int, s@.len() as int);
    proof {
        reveal_strlit("{\"id\":");
        reveal_strlit(",\"timestamp\":");
        reveal_strlit(",\"date\":");
        reveal_strlit(",\"body\":");
        reveal_strlit(",\"tags\":[");
        reveal_strlit("}");
        assert("{\"id\":"@ =~= lit_id());
        assert(",\"timestamp\":"@ =~= lit_timestamp());
        assert(",\"date\":"@ =~= lit_date());
        assert(",\"body\":"@ =~= lit_body());
        assert(",\"tags\":["@ =~= lit_tags());
        assert("}"@ =~= seq!['}']);
    }
    let s1 = match eat_lit_at(s, i, "{\"id\":") {
        Some(j) => j,
        None => {
            return None;
        },
    };
    let (id, s2) = match parse_number_at(s, s1) {
        Some(p) => p,
        None => {
            return None;
        },
    };
    let s3 = match eat_lit_at(s, s2, ",\"timestamp\":") {
        Some(j) => j,
        None => {
            return None;
        },
    };
    let (tstext, s4) = match parse_quoted_at(s, s3) {
        Some(p) => p,
        None => {
            return None;
        },
    };
    let ts = match parse_timestamp(tstext.as_str()) {
        Some(t) => t,
        None => {
            return None;
        },
    };
    let s5 = match eat_lit_at(s, s4, ",\"date\":") {
        Some(j) => j,
        None => {
            return None;
        },
    };
    let (dtext, s6) = match parse_quoted_at(s, s5) {
        Some(p) => p,
        None => {
            return None;
        },
    };
    let d = match parse_date(dtext.as_str()) {
        Some(d) => d,
        None => {
            return None;
        },
    };
    let s7 = match eat_lit_at(s, s6, ",\"body\":") {
        Some(j) => j,
        None => {
            return None;
        },
    };
    let (body, s8) = match parse_quoted_at(s, s7) {
        Some(p) => p,
        None => {
            return None;
        },
    };
    let s9 = match eat_lit_at(s, s8, ",\"tags\":[") {
        Some(j) => j,
        None => {
            return None;
        },
    };
    let (tags, s10) = match parse_tags_at(s, s9) {
        Some(p) => p,
        None => {
            return None;
        },
    };
    let s11 = match eat_lit_at(s, s10, "}") {
        Some(j) => j,
        None => {
            return None;
        },
    };
    let e = Entry { id, timestamp: ts, date: d, body, tags };
    proof {
        let (ev, rest) = spec_parse_entry(suf)->0;
        assert(e@ =~= ev);
    }
    Some((e, s11))
}

/// Parses a whole journal file: `Some` exactly on the canonical rendering
/// of an entry sequence whose ids fit the machine.
#[verifier::rlimit(100)]
pub fn parse_entries(s: &str) -> (r: Option<Vec<Entry>>)
    ensures
        match r {
            Some(v) => spec_parse_journal(s@) == Some(v.deep_view()),
            None => match spec_parse_journal(s@) {
                Some(es) => exists|k: int| 0 <= k < es.len() && (#[trigger] es[k]).id > usize::MAX,
                None => true,
            },
        },
{
    let n = s.unicode_len();
    proof {
        reveal_strlit("[");
        assert("["@ =~= seq!['[']);
        assert(s@.subrange(0, n as int) =~= s@);
    }
    let start = match eat_lit_at(s, 0, "[") {
        Some(j) => j,
        None => {
            return None;
        },
    };
    let mut out: Vec<Entry> = Vec::new();
    let mut cur: usize = start;
    proof {
        assert(out.deep_view() =~= Seq::<EntryV>::empty());
    }
    loop
        invariant
            start <= cur <= n,
            n == s@.len(),
            spec_eat(s@, seq!['[']) == Some(s@.subrange(start as int, n as int)),
            match spec_parse_entry_list(s@.subrange(cur as int, n as int)) {
                Some((es, r)) => spec_parse_entry_list(s@.subrange(start as int, n as int))
                    == Some((out.deep_view() + es, r)),
                None => spec_parse_entry_list(s@.subrange(start as int, n as int)) is None,
            },
        decreases n - cur,
    {
        let ghost u = s@.subrange(cur as int, n as int);
        if cur == n {
            assert(u.len() == 0);
            return None;
        }
        let c = s.get_char(cur);
        assert(u[0] == c);
        if c == ']' {
            proof {
                assert(u.drop_first() =~= s@.subrange(cur + 1, n as int));
                assert(out.deep_view() + Seq::<EntryV>::empty() =~= out.deep_view());
                assert(spec_parse_entry_list(s@.subrange(start as int, n as int)) == Some(
                    (out.deep_view(), s@.subrange(cur + 1, n as int)),
                ));
            }
            if cur + 1 != n {
                proof {
                    assert(s@.subrange(cur + 1, n as int).len() > 0);
                    assert(spec_parse_journal(s@) is None);
                }
                return None;
            }
            proof {
                assert(s@.subrange(cur + 1, n as int).len() == 0);
                assert(spec_parse_journal(s@) == Some(out.deep_view()));
            }
            return Some(out);
        }
        let (e, j) = match parse_entry_at(s, cur) {
            Some(p) => p,
            None => {
                proof {
                    match spec_parse_entry(u) {
                        Some((ev, rest)) => {
                            assert(ev.id > usize::MAX);
                            match spec_parse_entry_list(u) {
                                Some((es, r)) => {
                                    assert(es[0] == ev);
                                    let full = out.deep_view() + es;
                                    assert(spec_parse_entry_list(
                                        s@.subrange(start as int, n as int),
                                    ) == Some((full, r)));
                                    assert(full[out.deep_view().len() as int] == ev);
                                    assert(0 <= out.deep_view().len() < full.len());
                                    match spec_parse_journal(s@) {
                                        Some(esj) => {
                                            assert(esj == full);
                                            assert(exists|k: int|
                                                0 <= k < esj.len() && (#[trigger] esj[k]).id
                                                    > usize::MAX);
                                        },
                                        None => {},
                                    }
                                },
                                None => {},
                            }
                        },
                        None => {
                            assert(spec_parse_entry_list(u) is None);
                        },
                    }
                }
                return None;
            },
        };
        if j == n {
            proof {
                let (e0, r0) = spec_parse_entry(u)->0;
                assert(r0 =~= Seq::<char>::empty());
                assert(spec_parse_entry_list(u) is None);
            }
            return None;
        }
        let c2 = s.get_char(j);
        proof {
            let (e0, r0) = spec_parse_entry(u)->0;
            assert(r0 == s@.subrange(j as int, n as int));
            assert(r0[0] == c2);
        }
        let ghost before = out.deep_view();
        if c2 == ',' {
            out.push(e);
            proof {
                let (e0, r0) = spec_parse_entry(u)->0;
                assert(r0.drop_first() =~= s@.subrange(j + 1, n as int));
                assert(out.deep_view() =~~= before.push(e0));
                match spec_parse_entry_list(s@.subrange(j + 1, n as int)) {
                    Some((es2, r2)) => {
                        assert(spec_parse_entry_list(u) == Some((seq![e0] + es2, r2)));
                        assert(out.deep_view() + es2 =~~= before + (seq![e0] + es2));
                    },
                    None => {},
                }
            }
            cur = j + 1;
        } else if c2 == ']' {
            out.push(e);
            proof {
                let (e0, r0) = spec_parse_entry(u)->0;
                assert(r0.drop_first() =~= s@.subrange(j + 1, n as int));
                assert(spec_parse_entry_list(u) == Some((seq![e0], r0.drop_first())));
                assert(out.deep_view() =~~= before.push(e0));
                assert(out.deep_view() =~~= before + seq![e0]);
            }
            proof {
                assert(spec_parse_entry_list(s@.subrange(start as int, n as int)) == Some(
                    (out.deep_view(), s@.subrange(j + 1, n as int)),
                ));
            }
            if j + 1 != n {
                proof {
                    assert(s@.subrange(j + 1, n as int).len() > 0);
                    assert(spec_parse_journal(s@) is None);
                }
                return None;
            }
            proof {
                assert(s@.subrange(j + 1, n as int).len() == 0);
                assert(spec_parse_journal(s@) == Some(out.deep_view()));
            }
            return Some(out);
        } else {
            proof {
                let (e0, r0) = spec_parse_entry(u)->0;
                assert(spec_parse_entry_list(u) is None);
            }
            return None;
        }
    }
}

} // verus!
