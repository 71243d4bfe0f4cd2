//! Escaping of free text for the persistence format: quote and backslash
//! get a backslash escape, control characters a four-digit escape, and
//! everything else stands as itself. The module also holds the
//! escape-aware parser for quoted string contents, and the proof that
//! escaping and parsing invert each other.

use vstd::prelude::*;
use vstd::string::*;

verus! {

/// The control character with the given code.
pub open spec fn ctrl_char(v: int) -> char {
    if v == 0 {
        '\x00'
    } else if v == 1 {
        '\x01'
    } else if v == 2 {
        '\x02'
    } else if v == 3 {
        '\x03'
    } else if v == 4 {
        '\x04'
    } else if v == 5 {
        '\x05'
    } else if v == 6 {
        '\x06'
    } else if v == 7 {
        '\x07'
    } else if v == 8 {
        '\x08'
    } else if v == 9 {
        '\x09'
    } else if v == 10 {
        '\x0a'
    } else if v == 11 {
        '\x0b'
    } else if v == 12 {
        '\x0c'
    } else if v == 13 {
        '\x0d'
    } else if v == 14 {
        '\x0e'
    } else if v == 15 {
        '\x0f'
    } else if v == 16 {
        '\x10'
    } else if v == 17 {
        '\x11'
    } else if v == 18 {
        '\x12'
    } else if v == 19 {
        '\x13'
    } else if v == 20 {
        '\x14'
    } else if v == 21 {
        '\x15'
    } else if v == 22 {
        '\x16'
    } else if v == 23 {
        '\x17'
    } else if v == 24 {
        '\x18'
    } else if v == 25 {
        '\x19'
    } else if v == 26 {
        '\x1a'
    } else if v == 27 {
        '\x1b'
    } else if v == 28 {
        '\x1c'
    } else if v == 29 {
        '\x1d'
    } else if v == 30 {
        '\x1e'
    } else if v == 31 {
        '\x1f'
    } else {
        ' '
    }
}

/// The lowercase hex digit for a value below sixteen.
pub open spec fn hex_char(v: int) -> char {
    if v == 0 {
        '0'
    } else if v == 1 {
        '1'
    } else if v == 2 {
        '2'
    } else if v == 3 {
        '3'
    } else if v == 4 {
        '4'
    } else if v == 5 {
        '5'
    } else if v == 6 {
        '6'
    } else if v == 7 {
        '7'
    } else if v == 8 {
        '8'
    } else if v == 9 {
        '9'
    } else if v == 10 {
        'a'
    } else if v == 11 {
        'b'
    } else if v == 12 {
        'c'
    } else if v == 13 {
        'd'
    } else if v == 14 {
        'e'
    } else if v == 15 {
        'f'
    } else {
        'f'
    }
}

/// The value of a lowercase hex digit, or -1.
pub open spec fn hex_val(c: char) -> int {
    if '0' as u32 <= c as u32 <= '9' as u32 {
        c as u32 - '0' as u32
    } else if 'a' as u32 <= c as u32 <= 'f' as u32 {
        c as u32 - 'a' as u32 + 10
    } else {
        -1
    }
}

/// Hex digits and their values invert each other below sixteen.
pub proof fn lemma_hex_char_val(v: int)
    requires
        0 <= v < 16,
    ensures
        hex_val(hex_char(v)) == v,
{
}

/// Control characters and their codes invert each other below 32.
pub proof fn lemma_ctrl_char_code(c: char)
    requires
        (c as u32) < 32,
    ensures
        ctrl_char((c as u32) as int) == c,
{
}

/// The escape of one character.
pub open spec fn spec_escape_char(c: char) -> Seq<char> {
    if c == '"' {
        seq!['\\', '"']
    } else if c == '\\' {
        seq!['\\', '\\']
    } else if (c as u32) < 32 {
        seq!['\\', 'u', '0', '0', hex_char(((c as u32) as int) / 16), hex_char(((c as u32) as int) % 16)]
    } else {
        seq![c]
    }
}

/// The escape of a whole text, character by character.
pub open spec fn spec_escape(s: Seq<char>) -> Seq<char>
    decreases s.len(),
{
    if s.len() == 0 {
        Seq::empty()
    } else {
        spec_escape_char(s[0]) + spec_escape(s.drop_first())
    }
}

/// Parses the contents of a quoted string up to and including its closing
/// quote: `Some((content, rest))` when the input starts with a canonically
/// escaped text followed by `"`; the content is unescaped.
pub open spec fn spec_parse_string(s: Seq<char>) -> Option<(Seq<char>, Seq<char>)>
    decreases s.len(),
{
    if s.len() == 0 {
        None
    } else if s[0] == '"' {
        Some((Seq::empty(), s.drop_first()))
    } else if s[0] == '\\' {
        if s.len() >= 2 && (s[1] == '"' || s[1] == '\\') {
            match spec_parse_string(s.subrange(2, s.len() as int)) {
                Some((u, r)) => Some((seq![s[1]] + u, r)),
                None => None,
            }
        } else if s.len() >= 6 && s[1] == 'u' && s[2] == '0' && s[3] == '0' && 0 <= hex_val(s[4])
            && hex_val(s[4]) < 2 && 0 <= hex_val(s[5]) {
            match spec_parse_string(s.subrange(6, s.len() as int)) {
                Some((u, r)) => Some((seq![ctrl_char(hex_val(s[4]) * 16 + hex_val(s[5]))] + u, r)),
                None => None,
            }
        } else {
            None
        }
    } else if (s[0] as u32) >= 32 {
        match spec_parse_string(s.drop_first()) {
            Some((u, r)) => Some((seq![s[0]] + u, r)),
            None => None,
        }
    } else {
        None
    }
}

/// A parsed string consumes at least the closing quote: the rest is
/// strictly shorter than the input.
pub proof fn lemma_parse_string_shrinks(s: Seq<char>)
    ensures
        match spec_parse_string(s) {
            Some((u, r)) => r.len() < s.len(),
            None => true,
        },
    decreases s.len(),
{
    if s.len() == 0 {
    } else if s[0] == '"' {
    } else if s[0] == '\\' {
        if s.len() >= 2 && (s[1] == '"' || s[1] == '\\') {
            lemma_parse_string_shrinks(s.subrange(2, s.len() as int));
        } else if s.len() >= 6 && s[1] == 'u' && s[2] == '0' && s[3] == '0' && 0 <= hex_val(s[4])
            && hex_val(s[4]) < 2 && 0 <= hex_val(s[5]) {
            lemma_parse_string_shrinks(s.subrange(6, s.len() as int));
        }
    } else if (s[0] as u32) >= 32 {
        lemma_parse_string_shrinks(s.drop_first());
    }
}

/// Escaping a text, closing the quote, and parsing gives the text back,
/// with the tail untouched.
pub proof fn lemma_parse_escaped(u: Seq<char>, t: Seq<char>)
    ensures
        spec_parse_string(spec_escape(u) + seq!['"'] + t) == Some((u, t)),
    decreases u.len(),
{
    let s = spec_escape(u) + seq!['"'] + t;
    if u.len() == 0 {
        assert(spec_escape(u) =~= Seq::<char>::empty());
        assert(s[0] == '"');
        assert(s.drop_first() =~= t);
    } else {
        let c = u[0];
        let rest = u.drop_first();
        lemma_parse_escaped(rest, t);
        let inner = spec_escape(rest) + seq!['"'] + t;
        assert(spec_escape(u) == spec_escape_char(c) + spec_escape(rest));
        if c == '"' || c == '\\' {
            assert(s[0] == '\\');
            assert(s[1] == c);
            assert(s.subrange(2, s.len() as int) =~= inner);
            assert(seq![c] + rest =~= u);
        } else if (c as u32) < 32 {
            let code = (c as u32) as int;
            lemma_hex_char_val(code / 16);
            lemma_hex_char_val(code % 16);
            lemma_ctrl_char_code(c);
            assert(s[0] == '\\');
            assert(s[1] == 'u');
            assert(s[2] == '0');
            assert(s[3] == '0');
            assert(s[4] == hex_char(code / 16));
            assert(s[5] == hex_char(code % 16));
            assert(hex_val(s[4]) == code / 16);
            assert(hex_val(s[5]) == code % 16);
            assert(hex_val(s[4]) * 16 + hex_val(s[5]) == code);
            assert(ctrl_char(hex_val(s[4]) * 16 + hex_val(s[5])) == c);
            assert(s.subrange(6, s.len() as int) =~= inner);
            assert(seq![c] + rest =~= u);
        } else {
            assert(s[0] == c);
            assert(s[0] != '"' && s[0] != '\\');
            assert(s.drop_first() =~= inner);
            assert(seq![c] + rest =~= u);
        }
    }
}

/// A text free of quotes, backslashes and control characters escapes to
/// itself.
pub proof fn lemma_escape_plain(u: Seq<char>)
    requires
        forall|i: int| 0 <= i < u.len() ==> (#[trigger] u[i]) != '"' && u[i] != '\\' && (u[i] as u32)
            >= 32,
    ensures
        spec_escape(u) == u,
    decreases u.len(),
{
    if u.len() > 0 {
        let rest = u.drop_first();
        assert(forall|i: int| 0 <= i < rest.len() ==> rest[i] == #[trigger] u[i + 1]);
        lemma_escape_plain(rest);
        assert(spec_escape_char(u[0]) =~= seq![u[0]]);
        assert(seq![u[0]] + rest =~= u);
    }
}

} // verus!
