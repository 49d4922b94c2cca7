//! The section parser: from the text of a configuration to its section
//! mapping, line by line.

use crate::error::{outcome, ConfigError, ConfigErrorView, Text};
use crate::sections::{open_section, put_in, well_formed, SectionView, Sections};
use crate::text::{
    chars_of, copy_range, find_from, lemma_chars_deep_view, position, split, split_on,
    string_from, string_of, trim, trimmed,
};
use vstd::prelude::*;

verus! {

/// What one line of the text says.
pub enum Line {
    /// Nothing: the line is empty or a comment.
    Blank,
    /// `[name]`: the section `name` opens.
    Header(Text),
    /// `key = value`.
    Pair(Text, Text),
    /// Anything else; the line is kept without the white space round it.
    Junk(Text),
}

/// What the line `raw` says. White space round the line, round the key and
/// round the value does not count; a key ends at the first `=`.
pub open spec fn read_line(raw: Text) -> Line {
    let t = trim(raw);
    if t.len() == 0 || t[0] == '#' || t[0] == ';' {
        Line::Blank
    } else if t[0] == '[' && t.last() == ']' {
        Line::Header(t.subrange(1, t.len() - 1))
    } else {
        let k = position(t, '=');
        if 0 <= k < t.len() {
            Line::Pair(trim(t.take(k)), trim(t.skip(k + 1)))
        } else {
            Line::Junk(t)
        }
    }
}

/// How far parsing has come: the sections read so far, and the name of the
/// section that is open. An empty name stands for no open section.
pub struct Progress {
    pub sections: Seq<SectionView>,
    pub current: Text,
}

/// Parsing before the first line.
pub open spec fn start() -> Progress {
    Progress { sections: Seq::empty(), current: Seq::empty() }
}

/// Parsing after the line `raw`, which is line `number` of the text.
pub open spec fn step(p: Progress, number: int, raw: Text) -> Result<Progress, ConfigErrorView> {
    match read_line(raw) {
        Line::Blank => Ok(p),
        Line::Header(name) => Ok(
            Progress { sections: open_section(p.sections, name), current: name },
        ),
        Line::Pair(key, value) => if p.current.len() == 0 {
            Err(ConfigErrorView::KeyOutsideSection { line: number })
        } else {
            Ok(
                Progress {
                    sections: put_in(p.sections, p.current, key, value),
                    current: p.current,
                },
            )
        },
        Line::Junk(text) => Err(ConfigErrorView::Syntax { line: number, text }),
    }
}

/// Parsing after the first `n` of `lines`: the first line that fails ends it.
pub open spec fn run(lines: Seq<Text>, n: int) -> Result<Progress, ConfigErrorView>
    decreases n,
{
    if n <= 0 {
        Ok(start())
    } else {
        match run(lines, n - 1) {
            Ok(p) => step(p, n, lines[n - 1]),
            Err(e) => Err(e),
        }
    }
}

/// The section mapping that `text` denotes, or the failure of its first bad
/// line. Lines end at a line feed and are counted from 1.
pub open spec fn parse(text: Text) -> Result<Seq<SectionView>, ConfigErrorView> {
    let lines = split(text, '\n');
    match run(lines, lines.len() as int) {
        Ok(p) => Ok(p.sections),
        Err(e) => Err(e),
    }
}

/// A failure after `n` lines is the failure of the whole text.
pub proof fn lemma_run_failure_stays(lines: Seq<Text>, n: int, m: int)
    requires
        0 <= n <= m,
        run(lines, n) is Err,
    ensures
        run(lines, m) == run(lines, n),
    decreases m - n,
{
    if n < m {
        lemma_run_failure_stays(lines, n, m - 1);
    }
}

/// The sections stay well formed line after line.
pub proof fn lemma_run_well_formed(lines: Seq<Text>, n: int)
    requires
        0 <= n,
    ensures
        run(lines, n) is Ok ==> well_formed(run(lines, n)->Ok_0.sections),
    decreases n,
{
    if n > 0 {
        lemma_run_well_formed(lines, n - 1);
        if run(lines, n - 1) is Ok {
            let p = run(lines, n - 1)->Ok_0;
            match read_line(lines[n - 1]) {
                Line::Header(name) => {
                    crate::sections::lemma_open_keeps_well_formed(p.sections, name);
                },
                Line::Pair(key, value) => {
                    crate::sections::lemma_put_in_keeps_well_formed(
                        p.sections,
                        p.current,
                        key,
                        value,
                    );
                },
                _ => {},
            }
        }
    }
}

/// What `read_line` has found in a line, with the texts owned.
enum Found {
    Blank,
    Header(String),
    Pair(String, String),
    Junk(String),
}

impl Found {
    spec fn line(self) -> Line {
        match self {
            Found::Blank => Line::Blank,
            Found::Header(name) => Line::Header(name@),
            Found::Pair(key, value) => Line::Pair(key@, value@),
            Found::Junk(text) => Line::Junk(text@),
        }
    }
}

/// What the line `raw` says.
fn inspect(raw: &[char]) -> (found: Found)
    ensures
        found.line() == read_line(raw@),
{
    let t = trimmed(raw);
    let n = t.len();
    if n == 0 || t[0] == '#' || t[0] == ';' {
        return Found::Blank;
    }
    if t[0] == '[' && t[n - 1] == ']' {
        return Found::Header(string_from(&t, 1, n - 1));
    }
    let k = find_from(&t, 0, '=');
    if k < n {
        let key = trimmed(&copy_range(&t, 0, k));
        let value = trimmed(&copy_range(&t, k + 1, n));
        assert(t@.take(k as int) =~= t@.subrange(0, k as int));
        assert(t@.skip(k + 1) =~= t@.subrange(k + 1, n as int));
        Found::Pair(string_of(&key), string_of(&value))
    } else {
        Found::Junk(string_of(&t))
    }
}

/// The section parser.
pub struct IniParser;

impl IniParser {
    /// Parses the text of a configuration into its section mapping. Fails on
    /// the first line that is no comment, header or key/value pair, and on
    /// the first key/value pair that no section holds.
    pub fn parse_str(content: &str) -> (out: Result<Sections, ConfigError>)
        ensures
            outcome(out) == parse(content@),
            out is Ok ==> well_formed(out->Ok_0@),
    {
        let chars = chars_of(content);
        let lines = split_on(&chars, '\n');
        let ghost texts = split(content@, '\n');
        let mut sections = Sections::new();
        let mut current = String::new();
        let mut i: usize = 0;
        while i < lines.len()
            invariant
                i <= lines@.len(),
                lines.deep_view() == texts,
                texts == split(content@, '\n'),
                run(texts, i as int) == Ok::<Progress, ConfigErrorView>(
                    Progress { sections: sections@, current: current@ },
                ),
                well_formed(sections@),
            decreases lines@.len() - i,
        {
            proof {
                lemma_chars_deep_view(lines@[i as int]);
            }
            let found = inspect(&lines[i]);
            let ghost next = step(
                Progress { sections: sections@, current: current@ },
                i + 1,
                texts[i as int],
            );
            assert(run(texts, i + 1) == next);
            match found {
                Found::Blank => {},
                Found::Header(name) => {
                    sections.open(name.as_str());
                    current = name;
                },
                Found::Pair(key, value) => {
                    if current.as_str().is_empty() {
                        proof {
                            lemma_run_failure_stays(texts, i + 1, texts.len() as int);
                        }
                        return Err(ConfigError::KeyOutsideSection { line: i + 1 });
                    }
                    sections.insert(current.as_str(), key, value);
                },
                Found::Junk(text) => {
                    proof {
                        lemma_run_failure_stays(texts, i + 1, texts.len() as int);
                    }
                    return Err(ConfigError::Syntax { line: i + 1, text });
                },
            }
            i = i + 1;
        }
        Ok(sections)
    }
}

} // verus!
