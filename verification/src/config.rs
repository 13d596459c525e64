//! The options of a run, and the text in which they are kept on disk.
//!
//! The text is read line by line. A line that sets an option is the
//! option's name, `=` and its value, with whitespace and a `#` comment as
//! one likes; every other line, a section header among them, sets nothing.

use crate::text::{
    before, chars_of, cut, lemma_before_all, lemma_lines_first, lemma_lines_one,
    lemma_prefix_len_is, lemma_trimmed_is, lines, prefix_len, same_chars, scan, split_lines, trim,
    trimmed, CharSet,
};
use crate::value::{flag_of, flag_text, read_flag};
use vstd::prelude::*;
use vstd::string::StringExecFns;

verus! {

/// What a run does with its result.
#[derive(Clone, Copy, Debug, PartialEq, Eq, Structural)]
pub struct OutputConfig {
    /// Whether the resolver is told to reload its lists once the blocklist
    /// is published.
    pub auto_reload: bool,
}

/// The options of a run.
#[derive(Clone, Copy, Debug, PartialEq, Eq, Structural)]
pub struct Config {
    /// What a run does with its result.
    pub output: OutputConfig,
}

/// The name and the value that a line gives: what stands before and after
/// its first `=`, without the whitespace around either and without a
/// comment.
pub open spec fn setting(line: Seq<char>) -> Option<(Seq<char>, Seq<char>)> {
    let body = before(line, '#');
    let n = prefix_len(body, CharSet::AllBut('='));
    if n < body.len() {
        Some((trimmed(body.take(n as int)), trimmed(body.skip(n as int + 1))))
    } else {
        None
    }
}

/// What a line sets `auto_reload` to, if it sets it.
pub open spec fn auto_reload_set_by(line: Seq<char>) -> Option<bool> {
    match setting(line) {
        Some((name, value)) => if name == "auto_reload"@ {
            flag_of(value)
        } else {
            None
        },
        None => None,
    }
}

/// What the lines set `auto_reload` to: the last of them that sets it
/// decides.
pub open spec fn auto_reload_in(lines: Seq<Seq<char>>) -> Option<bool>
    decreases lines.len(),
{
    if lines.len() == 0 {
        None
    } else {
        match auto_reload_set_by(lines.last()) {
            Some(b) => Some(b),
            None => auto_reload_in(lines.drop_last()),
        }
    }
}

/// The options that a text gives. What it does not set, or sets to what is
/// no value of the option, is as in `Config::default`.
pub open spec fn config_of(text: Seq<char>) -> Config {
    Config {
        output: OutputConfig {
            auto_reload: match auto_reload_in(lines(text)) {
                Some(b) => b,
                None => false,
            },
        },
    }
}

/// The text for the given options.
pub open spec fn config_text(config: Config) -> Seq<char> {
    "[output]\nauto_reload = "@ + flag_text(config.output.auto_reload) + "\n"@
}

/// The text for options is read back as those options.
pub proof fn lemma_config_round_trip(config: Config)
    ensures
        config_of(config_text(config)) == config,
{
    reveal_strlit("[output]\nauto_reload = ");
    reveal_strlit("auto_reload");
    reveal_strlit("true");
    reveal_strlit("false");
    reveal_strlit("\n");
    let flag = flag_text(config.output.auto_reload);
    let header = seq!['[', 'o', 'u', 't', 'p', 'u', 't', ']'];
    let name = "auto_reload"@;
    let line = name + seq![' ', '=', ' '] + flag;
    let text = config_text(config);
    assert(text == header + seq!['\n'] + (line + seq!['\n'] + Seq::<char>::empty()));
    // The three lines of the text.
    lemma_lines_first(header, line + seq!['\n'] + Seq::<char>::empty());
    lemma_lines_first(line, Seq::<char>::empty());
    lemma_lines_one(Seq::<char>::empty());
    let all = seq![header, line, Seq::<char>::empty()];
    assert(lines(text) == all);
    // The last of them is empty and sets nothing.
    assert(auto_reload_set_by(all.last()) is None);
    assert(all.drop_last() == seq![header, line]);
    // The one before it sets the option.
    lemma_before_all(line, '#');
    lemma_prefix_len_is(line, CharSet::AllBut('='), 12);
    assert(line.take(12) == Seq::<char>::empty() + name + seq![' ']);
    assert(line.skip(13) == seq![' '] + flag + Seq::<char>::empty());
    lemma_trimmed_is(Seq::empty(), name, seq![' ']);
    lemma_trimmed_is(seq![' '], flag, Seq::empty());
    assert(setting(line) == Some((name, flag)));
    assert(flag_of(flag) == Some(config.output.auto_reload));
    assert(auto_reload_in(seq![header, line]) == Some(config.output.auto_reload));
}

impl Default for Config {
    /// The options that hold where none are given: the resolver is not told
    /// to reload.
    fn default() -> (r: Config)
        ensures
            r == (Config { output: OutputConfig { auto_reload: false } }),
    {
        Config { output: OutputConfig { auto_reload: false } }
    }
}

/// What `line` sets the option of the given name to, if it sets it.
fn read_auto_reload(line: &[char], name: &[char]) -> (r: Option<bool>)
    requires
        name@ == "auto_reload"@,
    ensures
        r == auto_reload_set_by(line@),
{
    let body = cut(line, '#');
    let n = scan(body, 0, CharSet::AllBut('='));
    assert(body@.skip(0) == body@);
    if n < body.len() {
        let key = trim(vstd::slice::slice_subrange(body, 0, n));
        let value = trim(vstd::slice::slice_subrange(body, n + 1, body.len()));
        if same_chars(key, name) {
            read_flag(value)
        } else {
            None
        }
    } else {
        None
    }
}

impl Config {
    /// Reads options from their text. This never fails: a text that sets
    /// nothing gives the default options.
    pub fn from_text(text: &str) -> (r: Config)
        ensures
            r == config_of(text@),
    {
        let v = chars_of(text);
        let all = split_lines(v.as_slice());
        let name = chars_of("auto_reload");
        let mut found: Option<bool> = None;
        let mut k: usize = 0;
        while k < all.len()
            invariant
                k <= all@.len(),
                name@ == "auto_reload"@,
                all@.len() == lines(text@).len(),
                forall|i: int| 0 <= i < all@.len() ==> (#[trigger] all@[i])@ == lines(text@)[i],
                found == auto_reload_in(lines(text@).take(k as int)),
            decreases all@.len() - k,
        {
            assert(lines(text@).take(k + 1).drop_last() == lines(text@).take(k as int));
            if let Some(b) = read_auto_reload(all[k], name.as_slice()) {
                found = Some(b);
            }
            k += 1;
        }
        assert(lines(text@).take(all@.len() as int) == lines(text@));
        Config {
            output: OutputConfig {
                auto_reload: match found {
                    Some(b) => b,
                    None => false,
                },
            },
        }
    }

    /// The text for these options, which `from_text` reads back as they are.
    pub fn to_text(&self) -> (r: String)
        ensures
            r@ == config_text(*self),
            config_of(r@) == *self,
    {
        proof {
            lemma_config_round_trip(*self);
        }
        let mut r = String::new();
        r.append("[output]\nauto_reload = ");
        if self.output.auto_reload {
            r.append("true");
        } else {
            r.append("false");
        }
        r.append("\n");
        r
    }
}

} // verus!
