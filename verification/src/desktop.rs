//! Reading the `[Desktop Entry]` section of a descriptor file.
//!
//! Only what an executability check needs is read: the keys and raw values of
//! one section. Locale suffixes, escapes and list values are not interpreted.

use crate::text::{
    ascii_lowercase, chars_of, find, find_char, rows, same_chars, same_chars_ignoring_case,
    same_text, split, split_chars, starts_with, string_of, text_contains, text_of,
    text_starts_with, texts, trim, trim_bounds,
};
use vstd::hash_map::StringHashMap;
use vstd::prelude::*;
use vstd::string::*;

verus! {

/// A trimmed line that carries nothing: blank, or a `#` or `;` comment.
pub open spec fn is_comment(line: Seq<char>) -> bool {
    line.len() == 0 || line[0] == '#' || line[0] == ';'
}

/// A trimmed line of the form `[...]`, which opens a section.
pub open spec fn is_header(line: Seq<char>) -> bool {
    !is_comment(line) && line[0] == '[' && line.last() == ']'
}

/// The lines of `content`, each without its surrounding whitespace. A
/// carriage return before the line feed is whitespace and goes with it.
pub open spec fn trimmed_lines(content: Seq<char>) -> Seq<Seq<char>> {
    let lines = split(content, '\n');
    Seq::new(lines.len(), |i: int| trim(lines[i]))
}

/// The lines that follow the first `[Desktop Entry]` header; none if there
/// is no such header.
pub open spec fn after_header(lines: Seq<Seq<char>>) -> Seq<Seq<char>>
    decreases lines.len(),
{
    if lines.len() == 0 {
        lines
    } else if lines[0] == "[Desktop Entry]"@ {
        lines.drop_first()
    } else {
        after_header(lines.drop_first())
    }
}

/// The lines that come before the next section header.
pub open spec fn until_header(lines: Seq<Seq<char>>) -> Seq<Seq<char>>
    decreases lines.len(),
{
    if lines.len() == 0 || is_header(lines[0]) {
        Seq::empty()
    } else {
        seq![lines[0]] + until_header(lines.drop_first())
    }
}

/// The trimmed lines of the first `[Desktop Entry]` section of `content`.
pub open spec fn section_lines(content: Seq<char>) -> Seq<Seq<char>> {
    until_header(after_header(trimmed_lines(content)))
}

/// The key and value of a trimmed line `key=value`, split at the first `=`
/// and trimmed on both sides; `None` for comments and lines without `=`.
pub open spec fn entry_of(line: Seq<char>) -> Option<(Seq<char>, Seq<char>)> {
    let eq = find(line, '=');
    if is_comment(line) || eq >= line.len() {
        None
    } else {
        Some((trim(line.take(eq)), trim(line.skip(eq + 1))))
    }
}

/// The fields that `lines` define; a later line wins over an earlier one
/// with the same key.
pub open spec fn fields_of(lines: Seq<Seq<char>>) -> Map<Seq<char>, Seq<char>>
    decreases lines.len(),
{
    if lines.len() == 0 {
        Map::empty()
    } else {
        let earlier = fields_of(lines.drop_last());
        match entry_of(lines.last()) {
            Some((key, value)) => earlier.insert(key, value),
            None => earlier,
        }
    }
}

/// The fields of the first `[Desktop Entry]` section of `content`.
pub open spec fn desktop_entry_fields(content: Seq<char>) -> Map<Seq<char>, Seq<char>> {
    fields_of(section_lines(content))
}

/// The keys of `map` with the contents of their values.
pub open spec fn field_map(map: StringHashMap<String>) -> Map<Seq<char>, Seq<char>> {
    Map::new(|k: Seq<char>| map@.contains_key(k), |k: Seq<char>| map@[k]@)
}

/// Whether a field value, compared case-insensitively, is one of `true`,
/// `1` and `yes`. The value is taken as it stands: with a blank before or
/// after the word it is none of the three.
pub open spec fn is_truthy(value: Seq<char>) -> bool {
    let v = ascii_lowercase(value);
    v == "true"@ || v == "1"@ || v == "yes"@
}

/// An argument of `env` that comes before the command: an option or an
/// assignment.
pub open spec fn is_env_argument(token: Seq<char>) -> bool {
    starts_with(token, '-') || token.contains('=')
}

/// How many arguments of `env` stand at the front of `tokens`.
pub open spec fn env_arguments(tokens: Seq<Seq<char>>) -> int
    decreases tokens.len(),
{
    if tokens.len() > 0 && is_env_argument(tokens[0]) {
        1 + env_arguments(tokens.drop_first())
    } else {
        0
    }
}

/// Where the executable stands in a tokenized command line: at the front,
/// or behind `env` and its arguments. The position may be `tokens.len()`.
pub open spec fn executable_index(tokens: Seq<Seq<char>>) -> int {
    if tokens.len() > 0 && tokens[0] == "env"@ {
        1 + env_arguments(tokens.drop_first())
    } else {
        0
    }
}

/// The executable of a tokenized command line, if it has one.
pub open spec fn executable_token(tokens: Seq<Seq<char>>) -> Option<Seq<char>> {
    let i = executable_index(tokens);
    if i < tokens.len() {
        Some(tokens[i])
    } else {
        None
    }
}

/// The arguments of `env` at the front of `tokens` are no more than the tokens.
pub proof fn lemma_env_arguments_bounds(tokens: Seq<Seq<char>>)
    ensures
        0 <= env_arguments(tokens) <= tokens.len(),
    decreases tokens.len(),
{
    if tokens.len() > 0 && is_env_argument(tokens[0]) {
        lemma_env_arguments_bounds(tokens.drop_first());
    }
}

/// Parses the first `[Desktop Entry]` section of `content` into a map from
/// key to raw value. Keys keep their case. Malformed lines are skipped.
pub fn parse_desktop_entry_section(content: &str) -> (map: StringHashMap<String>)
    ensures
        field_map(map) == desktop_entry_fields(content@),
{
    let chars = chars_of(content);
    let lines = split_chars(chars.as_slice(), '\n');
    let header = chars_of("[Desktop Entry]");
    let mut map: StringHashMap<String> = StringHashMap::new();
    let ghost all = trimmed_lines(content@);
    let ghost mut done: Seq<Seq<char>> = Seq::empty();
    // 0: before the section, 1: inside it, 2: after it
    let mut stage: u8 = 0;
    let mut i: usize = 0;
    assert(all.skip(0) == all);
    assert(field_map(map) == fields_of(done));
    assert(done + until_header(after_header(all)) == until_header(after_header(all)));
    while i < lines.len()
        invariant
            i <= lines.len(),
            rows(lines@) == split(content@, '\n'),
            all == trimmed_lines(content@),
            header@ == "[Desktop Entry]"@,
            stage <= 2,
            field_map(map) == fields_of(done),
            stage == 0 ==> section_lines(content@) == done + until_header(
                after_header(all.skip(i as int)),
            ),
            stage == 1 ==> section_lines(content@) == done + until_header(all.skip(i as int)),
            stage == 2 ==> section_lines(content@) == done,
        decreases lines.len() - i,
    {
        let line = lines[i].as_slice();
        let (a, b) = trim_bounds(line, 0, line.len());
        let ghost t = line@.subrange(a as int, b as int);
        proof {
            assert(rows(lines@)[i as int] == line@);
            assert(line@.subrange(0, line@.len() as int) == line@);
            assert(all[i as int] == t);
            assert(all.skip(i as int)[0] == t);
            assert(all.skip(i as int).drop_first() == all.skip(i + 1));
        }
        if stage == 0 {
            if same_chars(line, a, b, header.as_slice()) {
                stage = 1;
            }
        } else if stage == 1 {
            if a == b || line[a] == '#' || line[a] == ';' {
                proof {
                    assert(is_comment(t));
                    assert(done.push(t).drop_last() == done);
                    done = done.push(t);
                    assert(seq![t] + until_header(all.skip(i + 1)) == until_header(
                        all.skip(i as int),
                    ));
                }
            } else if line[a] == '[' && line[b - 1] == ']' {
                stage = 2;
                proof {
                    assert(is_header(t));
                    assert(until_header(all.skip(i as int)) == Seq::<Seq<char>>::empty());
                    assert(done + Seq::<Seq<char>>::empty() == done);
                }
            } else {
                let e = find_char(line, a, b, '=');
                if e < b {
                    let (ka, kb) = trim_bounds(line, a, e);
                    let (va, vb) = trim_bounds(line, e + 1, b);
                    let key = string_of(line, ka, kb);
                    let value = string_of(line, va, vb);
                    proof {
                        assert(t.take(e - a) == line@.subrange(a as int, e as int));
                        assert(t.skip(e - a + 1) == line@.subrange(e + 1, b as int));
                        assert(entry_of(t) == Some((key@, value@)));
                    }
                    let ghost earlier = field_map(map);
                    map.insert(key, value);
                    assert(field_map(map) == earlier.insert(key@, value@));
                } else {
                    assert(entry_of(t) is None);
                }
                proof {
                    assert(!is_header(t));
                    assert(done.push(t).drop_last() == done);
                    done = done.push(t);
                    assert(seq![t] + until_header(all.skip(i + 1)) == until_header(
                        all.skip(i as int),
                    ));
                }
            }
        }
        i += 1;
    }
    proof {
        assert(all.skip(i as int) == Seq::<Seq<char>>::empty());
        assert(done + Seq::<Seq<char>>::empty() == done);
    }
    map
}

/// Reads a boolean field: `true`, `1` and `yes`, in any case, are true;
/// anything else, or no value, is false.
pub fn parse_bool(v: Option<&String>) -> (r: bool)
    ensures
        r == match v {
            Some(s) => is_truthy(s@),
            None => false,
        },
{
    match v {
        None => false,
        Some(s) => {
            let chars = chars_of(s.as_str());
            let v = chars.as_slice();
            let n = v.len();
            assert(v@.subrange(0, v@.len() as int) == v@);
            same_chars_ignoring_case(v, 0, n, chars_of("true").as_slice())
                || same_chars_ignoring_case(v, 0, n, chars_of("1").as_slice())
                || same_chars_ignoring_case(v, 0, n, chars_of("yes").as_slice())
        },
    }
}

/// The position of the executable in `tokens`: see [`executable_index`].
pub fn executable_position(tokens: &[String]) -> (i: usize)
    ensures
        i == executable_index(texts(tokens@)),
        i <= tokens.len(),
{
    let ghost ts = texts(tokens@);
    if tokens.len() == 0 || !same_text(tokens[0].as_str(), "env") {
        return 0;
    }
    let mut i: usize = 1;
    proof {
        lemma_env_arguments_bounds(ts.drop_first());
        assert(ts.skip(1) == ts.drop_first());
    }
    while i < tokens.len() && (text_starts_with(tokens[i].as_str(), '-') || text_contains(
        tokens[i].as_str(),
        '=',
    ))
        invariant
            1 <= i <= tokens.len(),
            ts == texts(tokens@),
            executable_index(ts) == i + env_arguments(ts.skip(i as int)),
        decreases tokens.len() - i,
    {
        assert(ts.skip(i as int).drop_first() == ts.skip(i + 1));
        i += 1;
    }
    i
}

/// The executable of a tokenized command line: the first token, or, when
/// that is `env`, the first token behind its options and assignments.
pub fn extract_executable_from_tokens(tokens: &[String]) -> (r: Option<String>)
    ensures
        text_of(r) == executable_token(texts(tokens@)),
{
    let i = executable_position(tokens);
    if i < tokens.len() {
        Some(tokens[i].clone())
    } else {
        None
    }
}

} // verus!
