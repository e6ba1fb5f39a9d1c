use vstd::prelude::*;

use std::num::ParseIntError;

use super::errors::ConfigError;
use crate::http::text::{after_first, before_first, find_chars, first_match, is_first_match, matches_at, str_chars};
use vstd::string::{StrSliceExecFns, StringExecFns};

verus! {

/// Configuration of the bittorrent client
#[derive(Debug, Clone)]
pub struct Config {
    /// TCP port where client is receiving connections from other peers
    pub listen_port: u16,
    /// file path where logs will be written to
    pub log_path: String,
    /// file path where the downloaded file will be located at
    pub download_path: String,
}

/// A line without the carriage return that ends it, if any.
pub open spec fn drop_cr(line: Seq<char>) -> Seq<char> {
    if line.len() > 0 && line.last() == '\r' {
        line.drop_last()
    } else {
        line
    }
}

/// The lines of a text, as `str::lines` gives them: the text is split at each `\n`, a `\r`
/// just before it is dropped, and nothing follows a final `\n`.
pub open spec fn text_lines(t: Seq<char>) -> Seq<Seq<char>>
    decreases t.len(),
{
    if t.len() == 0 {
        Seq::empty()
    } else {
        match first_match(t, seq!['\n']) {
            Some(i) => if 0 <= i < t.len() {
                seq![drop_cr(t.take(i))] + text_lines(t.skip(i + 1))
            } else {
                seq![t]
            },
            None => seq![t],
        }
    }
}

/// The key and the value of a line of the config file: what comes before the first `=`, and
/// what comes between it and the next `=`; nothing when the line has no `=`.
pub open spec fn line_entry(line: Seq<char>) -> Option<(Seq<char>, Seq<char>)> {
    match after_first(line, seq!['=']) {
        Some(rest) => Some((before_first(line, seq!['=']), before_first(rest, seq!['=']))),
        None => None,
    }
}

/// The entries of the lines, in order.
pub open spec fn line_entries(lines: Seq<Seq<char>>) -> Seq<(Seq<char>, Seq<char>)>
    decreases lines.len(),
{
    if lines.len() == 0 {
        Seq::empty()
    } else {
        match line_entry(lines.last()) {
            Some(e) => line_entries(lines.drop_last()).push(e),
            None => line_entries(lines.drop_last()),
        }
    }
}

/// The value of `key` in the entries: that of its last entry, as when each entry is inserted
/// in turn in a map.
pub open spec fn last_value(entries: Seq<(Seq<char>, Seq<char>)>, key: Seq<char>) -> Option<Seq<char>>
    decreases entries.len(),
{
    if entries.len() == 0 {
        None
    } else if entries.last().0 == key {
        Some(entries.last().1)
    } else {
        last_value(entries.drop_last(), key)
    }
}

/// The entries of a dictionary of strings, as values.
pub open spec fn dict_view(d: Seq<(String, String)>) -> Seq<(Seq<char>, Seq<char>)> {
    d.map_values(|e: (String, String)| (e.0@, e.1@))
}

/// The decimal value of the digits `d`.
pub open spec fn digits_value(d: Seq<char>) -> nat
    decreases d.len(),
{
    if d.len() == 0 {
        0
    } else {
        digits_value(d.drop_last()) * 10 + ((d.last() as int - '0' as int) as nat)
    }
}

/// Whether `d` is one or more decimal digits.
pub open spec fn all_digits(d: Seq<char>) -> bool {
    d.len() > 0 && forall|i: int| 0 <= i < d.len() ==> '0' <= #[trigger] d[i] <= '9'
}

/// The text of a number without its leading `+`, if any.
pub open spec fn unsigned_digits(t: Seq<char>) -> Seq<char> {
    if t.len() > 0 && t[0] == '+' {
        t.drop_first()
    } else {
        t
    }
}

/// Parses a port number.
///
/// Trusted: calls `str::parse::<u16>`, whose documentation says that the text must be an
/// optional `+` followed by decimal digits only, of a value that fits in a `u16`; it
/// returns that value, and an error otherwise.
#[verifier::external_body]
fn parse_port(text: &str) -> (r: Result<u16, ParseIntError>)
    ensures
        match r {
            Ok(v) => all_digits(unsigned_digits(text@)) && digits_value(unsigned_digits(text@))
                == v,
            Err(_) => !(all_digits(unsigned_digits(text@)) && digits_value(unsigned_digits(text@))
                <= u16::MAX),
        },
{
    text.parse::<u16>()
}

/// How the lines go one line further.
proof fn lemma_lines_step(t: Seq<char>, i: int)
    requires
        0 <= i < t.len(),
        t[i] == '\n',
        forall|j: int| 0 <= j < i ==> t[j] != '\n',
    ensures
        text_lines(t) == seq![drop_cr(t.take(i))] + text_lines(t.skip(i + 1)),
{
    assert(is_first_match(t, seq!['\n'], i)) by {
        assert(t.subrange(i, i + 1) =~= seq!['\n']);
        assert forall|j: int| 0 <= j < i implies !#[trigger] matches_at(t, seq!['\n'], j) by {
            if matches_at(t, seq!['\n'], j) {
                assert(t.subrange(j, j + 1)[0] == t[j]);
            }
        }
    }
    let c = choose|c: int| is_first_match(t, seq!['\n'], c);
    crate::http::text::lemma_first_match_unique(t, seq!['\n'], i, c);
}

/// The lines of a text without `\n`.
proof fn lemma_lines_last(t: Seq<char>)
    requires
        forall|j: int| 0 <= j < t.len() ==> t[j] != '\n',
    ensures
        text_lines(t) == if t.len() == 0 {
            Seq::<Seq<char>>::empty()
        } else {
            seq![t]
        },
{
    if exists|c: int| is_first_match(t, seq!['\n'], c) {
        let c = choose|c: int| is_first_match(t, seq!['\n'], c);
        assert(t.subrange(c, c + 1)[0] == t[c]);
    }
}

/// The entry of the line `line` of `text`, with its key and value as strings.
fn entry_of_line(text: &str, chars: &Vec<char>, start: usize, end: usize) -> (r: Option<(String, String)>)
    requires
        chars@ == text@,
        start <= end <= chars.len(),
    ensures
        match r {
            Some(e) => line_entry(text@.subrange(start as int, end as int)) == Some((e.0@, e.1@)),
            None => line_entry(text@.subrange(start as int, end as int)) is None,
        },
{
    let line = vstd::slice::slice_to_vec(&chars.as_slice()[start..end]);
    let ghost l = text@.subrange(start as int, end as int);
    assert(line@ =~= l);
    let equals: [char; 1] = ['='];
    assert(equals@ =~= seq!['=']);
    match find_chars(line.as_slice(), equals.as_slice()) {
        None => None,
        Some(k) => {
            assert(matches_at(l, seq!['='], k as int));
            let rest = vstd::slice::slice_to_vec(&line.as_slice()[k + 1..line.len()]);
            let ghost rest_view = l.skip(k + 1);
            assert(rest@ =~= rest_view);
            let value_end = match find_chars(rest.as_slice(), equals.as_slice()) {
                Some(v) => v,
                None => rest.len(),
            };
            assert(rest@.take(value_end as int) =~= before_first(rest_view, seq!['='])) by {
                if value_end == rest.len() {
                    assert(rest@.take(value_end as int) =~= rest@);
                }
            }
            assert(text@.subrange(start as int, (start + k) as int) =~= l.take(k as int));
            let key = String::from_str(text.substring_char(start, start + k));
            assert(text@.subrange((start + k + 1) as int, (start + k + 1 + value_end) as int)
                =~= rest@.take(value_end as int));
            let value = String::from_str(
                text.substring_char(start + k + 1, start + k + 1 + value_end),
            );
            Some((key, value))
        },
    }
}

/// The entries of the config file `text`: the key and the value of each of its lines that
/// has a `=`, in order.
pub fn create_config_dict(text: &str) -> (dict: Vec<(String, String)>)
    ensures
        dict_view(dict@) == line_entries(text_lines(text@)),
{
    let chars = str_chars(text);
    let n = chars.len();
    let mut dict: Vec<(String, String)> = Vec::new();
    let ghost mut done: Seq<Seq<char>> = Seq::empty();
    let mut start: usize = 0;
    let mut i: usize = 0;
    assert(text@.skip(0) =~= text@);
    while i < n
        invariant
            chars@ == text@,
            n == chars.len(),
            start <= i <= n,
            text_lines(text@) == done + text_lines(text@.skip(start as int)),
            forall|j: int| start <= j < i ==> text@[j] != '\n',
            dict_view(dict@) == line_entries(done),
        decreases n - i,
    {
        if chars[i] == '\n' {
            let ghost t = text@.skip(start as int);
            proof {
                assert forall|j: int| 0 <= j < i - start implies t[j] != '\n' by {
                    assert(t[j] == text@[start + j]);
                }
                lemma_lines_step(t, i - start);
                assert(t.skip(i - start + 1) =~= text@.skip(i + 1));
            }
            let line_end = if i > start && chars[i - 1] == '\r' {
                i - 1
            } else {
                i
            };
            let ghost line = drop_cr(t.take(i - start));
            assert(text@.subrange(start as int, line_end as int) =~= line);
            let entry = entry_of_line(text, &chars, start, line_end);
            let ghost old_done = done;
            proof {
                done = done.push(line);
                assert(done.drop_last() =~= old_done);
                assert(old_done + (seq![line] + text_lines(text@.skip(i + 1))) =~= done
                    + text_lines(text@.skip(i + 1)));
            }
            match entry {
                Some(e) => {
                    dict.push(e);
                    assert(dict_view(dict@) =~= line_entries(old_done).push((e.0@, e.1@)));
                },
                None => {},
            }
            start = i + 1;
        }
        i += 1;
    }
    let ghost t = text@.skip(start as int);
    proof {
        assert forall|j: int| 0 <= j < t.len() implies t[j] != '\n' by {
            assert(t[j] == text@[start + j]);
        }
        lemma_lines_last(t);
    }
    if start < n {
        assert(text@.subrange(start as int, n as int) =~= t);
        let entry = entry_of_line(text, &chars, start, n);
        let ghost old_done = done;
        proof {
            done = done.push(t);
            assert(done.drop_last() =~= old_done);
            assert(old_done + seq![t] =~= done);
        }
        match entry {
            Some(e) => {
                dict.push(e);
                assert(dict_view(dict@) =~= line_entries(old_done).push((e.0@, e.1@)));
            },
            None => {},
        }
    } else {
        assert(done + Seq::<Seq<char>>::empty() =~= done);
    }
    dict
}

/// The value of `key` in the dictionary: that of its last entry.
fn lookup<'a>(dict: &'a Vec<(String, String)>, key: &str) -> (r: Option<&'a String>)
    ensures
        match r {
            Some(v) => last_value(dict_view(dict@), key@) == Some(v@),
            None => last_value(dict_view(dict@), key@) is None,
        },
{
    let mut found: Option<usize> = None;
    let mut i: usize = 0;
    let key_string = String::from_str(key);
    while i < dict.len()
        invariant
            i <= dict.len(),
            key_string@ == key@,
            match found {
                Some(f) => f < i && last_value(dict_view(dict@).take(i as int), key@) == Some(
                    dict_view(dict@)[f as int].1,
                ),
                None => last_value(dict_view(dict@).take(i as int), key@) is None,
            },
        decreases dict.len() - i,
    {
        assert(dict_view(dict@).take(i + 1).drop_last() =~= dict_view(dict@).take(i as int));
        if dict[i].0 == key_string {
            found = Some(i);
        }
        i += 1;
    }
    assert(dict_view(dict@).take(dict.len() as int) =~= dict_view(dict@));
    match found {
        Some(f) => Some(&dict[f].1),
        None => None,
    }
}

/// What the entries of the config file give, before its paths are checked.
pub enum ConfigOutcome {
    /// The port and the paths of the logs and of the download.
    Ready(u16, Seq<char>, Seq<char>),
    /// This key is missing.
    MissingKey(Seq<char>),
    /// The port is not a number that fits in 16 bits.
    InvalidPort,
}

/// What the entries of the config file give: each key is looked up in turn, `listen_port`,
/// then `log_path`, then `download_path`, and the port is parsed right after it is found.
pub open spec fn config_outcome(entries: Seq<(Seq<char>, Seq<char>)>) -> ConfigOutcome {
    match last_value(entries, "listen_port"@) {
        None => ConfigOutcome::MissingKey("listen_port"@),
        Some(port) => if !(all_digits(unsigned_digits(port)) && digits_value(unsigned_digits(port))
            <= u16::MAX) {
            ConfigOutcome::InvalidPort
        } else {
            match last_value(entries, "log_path"@) {
                None => ConfigOutcome::MissingKey("log_path"@),
                Some(log_path) => match last_value(entries, "download_path"@) {
                    None => ConfigOutcome::MissingKey("download_path"@),
                    Some(download_path) => ConfigOutcome::Ready(
                        digits_value(unsigned_digits(port)) as u16,
                        log_path,
                        download_path,
                    ),
                },
            }
        },
    }
}

/// The configuration that the dictionary gives: the port of `listen_port`, and the paths
/// of `log_path` and `download_path`; an error that names the first missing key, or an
/// invalid port.
pub fn create_config(config_dict: &Vec<(String, String)>) -> (res: Result<Config, ConfigError>)
    ensures
        match res {
            Ok(config) => config_outcome(dict_view(config_dict@)) == ConfigOutcome::Ready(
                config.listen_port,
                config.log_path@,
                config.download_path@,
            ),
            Err(ConfigError::MissingKey(key)) => config_outcome(dict_view(config_dict@))
                == ConfigOutcome::MissingKey(key@),
            Err(ConfigError::InvalidPort(_)) => config_outcome(dict_view(config_dict@)) is InvalidPort,
            Err(ConfigError::InvalidPath(_)) => false,
        },
{
    let port_text = match lookup(config_dict, "listen_port") {
        Some(port) => port,
        None => {
            return Err(ConfigError::MissingKey(String::from_str("listen_port")));
        },
    };
    let listen_port = match parse_port(port_text.as_str()) {
        Ok(port) => port,
        Err(e) => {
            return Err(ConfigError::InvalidPort(e));
        },
    };
    let log_path = match lookup(config_dict, "log_path") {
        Some(path) => path,
        None => {
            return Err(ConfigError::MissingKey(String::from_str("log_path")));
        },
    };
    let download_path = match lookup(config_dict, "download_path") {
        Some(path) => path,
        None => {
            return Err(ConfigError::MissingKey(String::from_str("download_path")));
        },
    };
    Ok(
        Config {
            listen_port,
            log_path: String::from_str(log_path.as_str()),
            download_path: String::from_str(download_path.as_str()),
        },
    )
}

} // verus!
