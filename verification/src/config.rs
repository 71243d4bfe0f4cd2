//! Configuration: the journal's settings and their settings-file format,
//! with a round-trip proof for the codec.
//!
//! As with the journal format, the settings parser is strict: it accepts
//! exactly the canonical file this module writes (one table, fixed key
//! order and spacing) and refuses anything else as malformed.

use vstd::prelude::*;
use vstd::string::*;
use crate::codec::{spec_eat, eat_lit_at, parse_string_at, lemma_eat_lit};
use crate::escape::{spec_escape, spec_parse_string, lemma_parse_escaped};

verus! {

/// The journal's settings: whether tag tokens stay visible in stored
/// bodies, whether entry times are shown, and where exports go.
pub struct JournalConfig {
    pub body_tags: bool,
    pub show_time: bool,
    pub export_dir: String,
}

/// The whole configuration: one journal-settings table.
pub struct Config {
    pub journal_cfg: JournalConfig,
}

/// The export directory used when none is configured.
pub fn default_export_dir() -> (r: String)
    ensures
        r@ == "exports"@,
{
    String::from_str("exports")
}

impl Clone for JournalConfig {
    fn clone(&self) -> (r: JournalConfig)
        ensures
            r.body_tags == self.body_tags,
            r.show_time == self.show_time,
            r.export_dir@ == self.export_dir@,
    {
        JournalConfig {
            body_tags: self.body_tags,
            show_time: self.show_time,
            export_dir: self.export_dir.clone(),
        }
    }
}

impl Default for JournalConfig {
    /// Tags hidden in bodies, times hidden, exports to `exports`.
    fn default() -> (r: JournalConfig)
        ensures
            !r.body_tags,
            !r.show_time,
            r.export_dir@ == "exports"@,
    {
        JournalConfig {
            body_tags: false,
            show_time: false,
            export_dir: default_export_dir(),
        }
    }
}

impl Default for Config {
    fn default() -> (r: Config)
        ensures
            !r.journal_cfg.body_tags,
            !r.journal_cfg.show_time,
            r.journal_cfg.export_dir@ == "exports"@,
    {
        Config { journal_cfg: JournalConfig::default() }
    }
}

/// The rendering of a truth value in the settings file.
pub open spec fn spec_emit_bool(b: bool) -> Seq<char> {
    if b {
        "true"@
    } else {
        "false"@
    }
}

/// The canonical settings file for the given values.
pub open spec fn spec_emit_config(body_tags: bool, show_time: bool, export_dir: Seq<char>) -> Seq<
    char,
> {
    "[journal_cfg]\nbody_tags = "@ + spec_emit_bool(body_tags) + "\nshow_time = "@ + spec_emit_bool(
        show_time,
    ) + "\nexport_dir = \""@ + spec_escape(export_dir) + "\"\n"@
}

/// Parses a truth value.
pub open spec fn spec_parse_bool(s: Seq<char>) -> Option<(bool, Seq<char>)> {
    match spec_eat(s, "true"@) {
        Some(r) => Some((true, r)),
        None => match spec_eat(s, "false"@) {
            Some(r) => Some((false, r)),
            None => None,
        },
    }
}

/// What parsing a settings file gives: the three values, when the file
/// has exactly the canonical shape.
pub open spec fn spec_parse_config(s: Seq<char>) -> Option<(bool, bool, Seq<char>)> {
    match spec_eat(s, "[journal_cfg]\nbody_tags = "@) {
        None => None,
        Some(s1) => match spec_parse_bool(s1) {
            None => None,
            Some((bt, s2)) => match spec_eat(s2, "\nshow_time = "@) {
                None => None,
                Some(s3) => match spec_parse_bool(s3) {
                    None => None,
                    Some((st, s4)) => match spec_eat(s4, "\nexport_dir = \""@) {
                        None => None,
                        Some(s5) => match spec_parse_string(s5) {
                            None => None,
                            Some((dir, s6)) => match spec_eat(s6, "\n"@) {
                                None => None,
                                Some(s7) => if s7.len() == 0 {
                                    Some((bt, st, dir))
                                } else {
                                    None
                                },
                            },
                        },
                    },
                },
            },
        },
    }
}

/// Renders the configuration as its settings file.
pub fn config_to_toml(config: &Config) -> (r: String)
    ensures
        r@ == spec_emit_config(
            config.journal_cfg.body_tags,
            config.journal_cfg.show_time,
            config.journal_cfg.export_dir@,
        ),
{
    let mut out = String::from_str("[journal_cfg]\nbody_tags = ");
    if config.journal_cfg.body_tags {
        out.append("true");
    } else {
        out.append("false");
    }
    out.append("\nshow_time = ");
    if config.journal_cfg.show_time {
        out.append("true");
    } else {
        out.append("false");
    }
    out.append("\nexport_dir = \"");
    let e = crate::codec::escape_for_config(config.journal_cfg.export_dir.as_str());
    out.append(e.as_str());
    out.append("\"\n");
    proof {
        assert(out@ =~= spec_emit_config(
            config.journal_cfg.body_tags,
            config.journal_cfg.show_time,
            config.journal_cfg.export_dir@,
        ));
    }
    out
}

/// Parses a settings file; `Some` exactly on the canonical shape.
pub fn config_from_toml(s: &str) -> (r: Option<Config>)
    ensures
        match r {
            Some(c) => spec_parse_config(s@) == Some(
                (c.journal_cfg.body_tags, c.journal_cfg.show_time, c.journal_cfg.export_dir@),
            ),
            None => spec_parse_config(s@) is None,
        },
{
    let n = s.unicode_len();
    proof {
        assert(s@.subrange(0, n as int) =~= s@);
    }
    let s1 = match eat_lit_at(s, 0, "[journal_cfg]\nbody_tags = ") {
        Some(j) => j,
        None => {
            return None;
        },
    };
    let (bt, s2) = match parse_bool_at(s, s1) {
        Some(p) => p,
        None => {
            return None;
        },
    };
    let s3 = match eat_lit_at(s, s2, "\nshow_time = ") {
        Some(j) => j,
        None => {
            return None;
        },
    };
    let (st, s4) = match parse_bool_at(s, s3) {
        Some(p) => p,
        None => {
            return None;
        },
    };
    let s5 = match eat_lit_at(s, s4, "\nexport_dir = \"") {
        Some(j) => j,
        None => {
            return None;
        },
    };
    let (dir, s6) = match parse_string_at(s, s5) {
        Some(p) => p,
        None => {
            return None;
        },
    };
    let s7 = match eat_lit_at(s, s6, "\n") {
        Some(j) => j,
        None => {
            return None;
        },
    };
    if s7 != n {
        proof {
            assert(s@.subrange(s7 as int, n as int).len() > 0);
        }
        return None;
    }
    proof {
        assert(s@.subrange(s7 as int, n as int).len() == 0);
    }
    Some(Config { journal_cfg: JournalConfig { body_tags: bt, show_time: st, export_dir: dir } })
}

/// Parses a truth value at position `i`.
fn parse_bool_at(s: &str, i: usize) -> (r: Option<(bool, usize)>)
    requires
        i <= s@.len(),
    ensures
        ({
            let suf = s@.subrange(i as int, s@.len() as int);
            match r {
                Some((b, j)) => i <= j <= s@.len() && spec_parse_bool(suf) == Some(
                    (b, s@.subrange(j as int, s@.len() as int)),
                ),
                None => spec_parse_bool(suf) is None,
            }
        }),
{
    match eat_lit_at(s, i, "true") {
        Some(j) => Some((true, j)),
        None => match eat_lit_at(s, i, "false") {
            Some(j) => Some((false, j)),
            None => None,
        },
    }
}

/// Round trip: parsing the rendering of any settings yields them back.
#[verifier::rlimit(100)]
pub proof fn lemma_config_roundtrip(body_tags: bool, show_time: bool, export_dir: Seq<char>)
    ensures
        spec_parse_config(spec_emit_config(body_tags, show_time, export_dir)) == Some(
            (body_tags, show_time, export_dir),
        ),
{
    let s = spec_emit_config(body_tags, show_time, export_dir);
    let a2 = "\nshow_time = "@ + spec_emit_bool(show_time) + "\nexport_dir = \""@ + spec_escape(
        export_dir,
    ) + "\"\n"@;
    let a1 = spec_emit_bool(body_tags) + a2;
    let a4 = "\nexport_dir = \""@ + spec_escape(export_dir) + "\"\n"@;
    let a3 = spec_emit_bool(show_time) + a4;
    let a5 = spec_escape(export_dir) + "\"\n"@;
    let a6 = "\n"@;
    assert(spec_eat(s, "[journal_cfg]\nbody_tags = "@) == Some(a1)) by {
        assert(s =~= "[journal_cfg]\nbody_tags = "@ + a1);
        lemma_eat_lit("[journal_cfg]\nbody_tags = "@, a1);
    }
    assert(spec_parse_bool(a1) == Some((body_tags, a2))) by {
        lemma_parse_bool_of(body_tags, a2);
    }
    assert(spec_eat(a2, "\nshow_time = "@) == Some(a3)) by {
        assert(a2 =~= "\nshow_time = "@ + a3);
        lemma_eat_lit("\nshow_time = "@, a3);
    }
    assert(spec_parse_bool(a3) == Some((show_time, a4))) by {
        lemma_parse_bool_of(show_time, a4);
    }
    assert(spec_eat(a4, "\nexport_dir = \""@) == Some(a5)) by {
        assert(a4 =~= "\nexport_dir = \""@ + a5);
        lemma_eat_lit("\nexport_dir = \""@, a5);
    }
    assert(spec_parse_string(a5) == Some((export_dir, a6))) by {
        reveal_strlit("\"\n");
        reveal_strlit("\n");
        assert(a5 =~= spec_escape(export_dir) + seq!['"'] + "\n"@);
        lemma_parse_escaped(export_dir, "\n"@);
    }
    assert(spec_eat(a6, "\n"@) == Some(Seq::<char>::empty())) by {
        assert(a6 =~= "\n"@ + Seq::<char>::empty());
        lemma_eat_lit("\n"@, Seq::<char>::empty());
    }
}

/// A rendered truth value parses back, whatever follows.
proof fn lemma_parse_bool_of(b: bool, t: Seq<char>)
    ensures
        spec_parse_bool(spec_emit_bool(b) + t) == Some((b, t)),
{
    reveal_strlit("true");
    reveal_strlit("false");
    let s = spec_emit_bool(b) + t;
    if b {
        lemma_eat_lit("true"@, t);
    } else {
        lemma_eat_lit("false"@, t);
        assert(spec_eat(s, "true"@) is None) by {
            if spec_eat(s, "true"@) is Some {
                assert(s.subrange(0, 4)[0] == s[0]);
                assert(s[0] == 'f');
                assert("true"@[0] == 't');
            }
        }
    }
}

} // verus!
