//! The profile file format: a small TOML subset.
//!
//! A profile declares `name`, any number of `[[fs.bind]]` tables with `path`
//! and an optional `write`, and `[run]` with the `cmd` array.  Values are
//! double-quoted strings, booleans, or arrays of quoted strings.  Relative
//! bind paths are rejected at load time, so every profile the portal holds
//! grants absolute paths only.
//!
//! The whole grammar is stated in specification functions: splitting into
//! lines, trimming, the value forms, one parsing step per line, and the
//! final assembly.  `get_config` returns exactly what that reading gives.

use vstd::prelude::*;

use crate::config::error::ConfigError;
use crate::config::profile::{BindConfig, BindConfigV, FsConfig, ProfileConfig, ProfileConfigV,
    FsConfigV, RunConfigV, bind_configs_view, cmd_view};
use crate::path::{abs_path, is_absolute, str_eq};

verus! {

/// Whether the character is blank.
pub open spec fn spec_blank(c: char) -> bool {
    c == ' ' || c == '\t' || c == '\r'
}

/// Whether the character is blank.
fn is_blank(c: char) -> (r: bool)
    ensures
        r == spec_blank(c),
{
    c == ' ' || c == '\t' || c == '\r'
}

/// The position of the first newline at or after `i`, or the length.
pub open spec fn spec_find_nl(s: Seq<char>, i: int) -> int
    decreases s.len() - i,
{
    if i < 0 || i >= s.len() {
        s.len() as int
    } else if s[i] == '\n' {
        i
    } else {
        spec_find_nl(s, i + 1)
    }
}

/// The newline split of a text.
pub open spec fn spec_split_lines(s: Seq<char>) -> Seq<Seq<char>>
    decreases s.len(),
{
    let e = spec_find_nl(s, 0);
    if e < 0 || e >= s.len() {
        seq![s]
    } else {
        seq![s.subrange(0, e)] + spec_split_lines(s.subrange(e + 1, s.len() as int))
    }
}

/// The first newline is where the recursion says.
proof fn lemma_find_nl_bounds(s: Seq<char>, i: int)
    requires
        0 <= i <= s.len(),
    ensures
        i <= spec_find_nl(s, i) <= s.len(),
    decreases s.len() - i,
{
    if i < s.len() && s[i] != '\n' {
        lemma_find_nl_bounds(s, i + 1);
    }
}

/// The position of the first newline, or the length.
fn find_nl(s: &str) -> (r: usize)
    ensures
        r == spec_find_nl(s@, 0),
        r <= s@.len(),
{
    let len = s.unicode_len();
    let mut i: usize = 0;
    while i < len
        invariant
            0 <= i <= len,
            len == s@.len(),
            spec_find_nl(s@, 0) == spec_find_nl(s@, i as int),
        decreases len - i,
    {
        if s.get_char(i) == '\n' {
            return i;
        }
        i = i + 1;
    }
    len
}

/// The line split of a text.
fn split_lines(s: &str) -> (r: Vec<String>)
    ensures
        cmd_view(r@) == spec_split_lines(s@),
    decreases s@.len(),
{
    let len = s.unicode_len();
    let e = find_nl(s);
    if e >= len {
        let mut out: Vec<String> = Vec::new();
        out.push(s.to_owned());
        proof {
            assert(cmd_view(out@) =~= spec_split_lines(s@));
        }
        out
    } else {
        proof {
            lemma_find_nl_bounds(s@, 0);
        }
        let first = s.substring_char(0, e).to_owned();
        let rest = split_lines(s.substring_char(e + 1, len));
        let mut out: Vec<String> = Vec::new();
        out.push(first);
        let mut k: usize = 0;
        while k < rest.len()
            invariant
                0 <= k <= rest@.len(),
                cmd_view(out@) == seq![s@.subrange(0, spec_find_nl(s@, 0))] + cmd_view(
                    rest@,
                ).subrange(0, k as int),
                cmd_view(rest@) == spec_split_lines(
                    s@.subrange(spec_find_nl(s@, 0) + 1, s@.len() as int),
                ),
                0 <= spec_find_nl(s@, 0) < s@.len(),
            decreases rest@.len() - k,
        {
            let ghost o0 = cmd_view(out@);
            out.push(rest[k].clone());
            proof {
                assert(cmd_view(out@) =~= o0.push(rest@[k as int]@));
                assert(cmd_view(rest@).subrange(0, k + 1) =~= cmd_view(rest@).subrange(
                    0,
                    k as int,
                ).push(rest@[k as int]@));
            }
            k = k + 1;
        }
        proof {
            assert(cmd_view(rest@).subrange(0, rest@.len() as int) =~= cmd_view(rest@));
            assert(cmd_view(out@) =~= spec_split_lines(s@));
        }
        out
    }
}

/// The text without leading blanks.
pub open spec fn spec_trim_start(s: Seq<char>) -> Seq<char>
    decreases s.len(),
{
    if s.len() > 0 && spec_blank(s[0]) {
        spec_trim_start(s.drop_first())
    } else {
        s
    }
}

/// The text without trailing blanks.
pub open spec fn spec_trim_end(s: Seq<char>) -> Seq<char>
    decreases s.len(),
{
    if s.len() > 0 && spec_blank(s.last()) {
        spec_trim_end(s.drop_last())
    } else {
        s
    }
}

/// The text without leading and trailing blanks.
pub open spec fn spec_trim(s: Seq<char>) -> Seq<char> {
    spec_trim_end(spec_trim_start(s))
}

/// `s` without leading and trailing blanks.
fn trim(s: &str) -> (r: String)
    ensures
        r@ == spec_trim(s@),
{
    let len = s.unicode_len();
    let mut a: usize = 0;
    proof {
        assert(s@.subrange(0, len as int) =~= s@);
    }
    while a < len && is_blank(s.get_char(a))
        invariant
            0 <= a <= len,
            len == s@.len(),
            spec_trim_start(s@) == spec_trim_start(s@.subrange(a as int, len as int)),
        decreases len - a,
    {
        proof {
            assert(s@.subrange(a as int, len as int).drop_first() =~= s@.subrange(
                a + 1,
                len as int,
            ));
        }
        a = a + 1;
    }
    proof {
        assert(spec_trim_start(s@) == s@.subrange(a as int, len as int));
    }
    let mut b: usize = len;
    while b > a && is_blank(s.get_char(b - 1))
        invariant
            a <= b <= len,
            len == s@.len(),
            spec_trim_start(s@) == s@.subrange(a as int, len as int),
            spec_trim_end(s@.subrange(a as int, len as int)) == spec_trim_end(
                s@.subrange(a as int, b as int),
            ),
        decreases b,
    {
        proof {
            assert(s@.subrange(a as int, b as int).drop_last() =~= s@.subrange(
                a as int,
                b - 1,
            ));
        }
        b = b - 1;
    }
    proof {
        assert(spec_trim_end(s@.subrange(a as int, b as int)) == s@.subrange(a as int, b as int));
    }
    s.substring_char(a, b).to_owned()
}

/// The position of the first `c`, or the length.
pub open spec fn spec_find_char(s: Seq<char>, c: char, i: int) -> int
    decreases s.len() - i,
{
    if i < 0 || i >= s.len() {
        s.len() as int
    } else if s[i] == c {
        i
    } else {
        spec_find_char(s, c, i + 1)
    }
}

/// The position of the first `c` in `s`, if any.
fn find_char(s: &str, c: char) -> (r: Option<usize>)
    ensures
        match r {
            Some(i) => spec_find_char(s@, c, 0) == i && i < s@.len(),
            None => spec_find_char(s@, c, 0) == s@.len(),
        },
{
    let len = s.unicode_len();
    let mut i: usize = 0;
    while i < len
        invariant
            0 <= i <= len,
            len == s@.len(),
            spec_find_char(s@, c, 0) == spec_find_char(s@, c, i as int),
        decreases len - i,
    {
        if s.get_char(i) == c {
            return Some(i);
        }
        i = i + 1;
    }
    None
}

/// The text inside a double-quoted value, which holds no further quote.
pub open spec fn spec_parse_quoted(s: Seq<char>) -> Option<Seq<char>> {
    if s.len() >= 2 && s[0] == '"' && s[s.len() - 1] == '"' && (forall|i: int|
        1 <= i < s.len() - 1 ==> s[i] != '"') {
        Some(s.subrange(1, s.len() - 1))
    } else {
        None
    }
}

/// The text inside a double-quoted value.
fn parse_quoted(s: &str) -> (r: Option<String>)
    ensures
        match r {
            Some(v) => spec_parse_quoted(s@) == Some(v@),
            None => spec_parse_quoted(s@) is None,
        },
{
    let len = s.unicode_len();
    if len < 2 {
        return None;
    }
    if s.get_char(0) != '"' || s.get_char(len - 1) != '"' {
        return None;
    }
    let mut i: usize = 1;
    while i < len - 1
        invariant
            1 <= i <= len - 1,
            len == s@.len(),
            len >= 2,
            forall|j: int| 1 <= j < i ==> s@[j] != '"',
        decreases len - i,
    {
        if s.get_char(i) == '"' {
            return None;
        }
        i = i + 1;
    }
    Some(s.substring_char(1, len - 1).to_owned())
}

/// The value `true` or `false`.
pub open spec fn spec_parse_bool(s: Seq<char>) -> Option<bool> {
    if s == "true"@ {
        Some(true)
    } else if s == "false"@ {
        Some(false)
    } else {
        None
    }
}

/// The value `true` or `false`.
fn parse_bool(s: &str) -> (r: Option<bool>)
    ensures
        r == spec_parse_bool(s@),
{
    if str_eq(s, "true") {
        Some(true)
    } else if str_eq(s, "false") {
        Some(false)
    } else {
        None
    }
}

/// The position of the first `"` at or after `i`, before `end`.
pub open spec fn spec_find_quote(s: Seq<char>, i: int, end: int) -> int
    decreases end - i,
{
    if i < 0 || i >= end {
        end
    } else if s[i] == '"' {
        i
    } else {
        spec_find_quote(s, i + 1, end)
    }
}

/// The strings between the brackets: blanks and separating commas around
/// quoted values.
pub open spec fn spec_parse_items(s: Seq<char>, i: int, end: int, expect_comma: bool) -> Option<
    Seq<Seq<char>>,
>
    decreases end - i,
{
    if i < 0 || i >= end {
        Some(Seq::empty())
    } else if spec_blank(s[i]) {
        spec_parse_items(s, i + 1, end, expect_comma)
    } else if s[i] == ',' {
        if !expect_comma {
            None
        } else {
            spec_parse_items(s, i + 1, end, false)
        }
    } else if s[i] == '"' {
        if expect_comma {
            None
        } else {
            let j = spec_find_quote(s, i + 1, end);
            if j < i + 1 || j >= end {
                None
            } else {
                match spec_parse_items(s, j + 1, end, true) {
                    None => None,
                    Some(rest) => Some(seq![s.subrange(i + 1, j)] + rest),
                }
            }
        }
    } else {
        None
    }
}

/// The strings of a bracketed, comma-separated array of quoted values.
pub open spec fn spec_parse_string_array(s: Seq<char>) -> Option<Seq<Seq<char>>> {
    if s.len() >= 2 && s[0] == '[' && s[s.len() - 1] == ']' {
        spec_parse_items(s, 1, s.len() - 1, false)
    } else {
        None
    }
}

/// The position of the first `"` at or after `from`, before `end`.
fn find_quote(s: &str, from: usize, end: usize) -> (r: Option<usize>)
    requires
        from <= end <= s@.len(),
    ensures
        match r {
            Some(j) => spec_find_quote(s@, from as int, end as int) == j && from <= j < end,
            None => spec_find_quote(s@, from as int, end as int) == end,
        },
{
    let mut j = from;
    while j < end
        invariant
            from <= j <= end,
            end <= s@.len(),
            spec_find_quote(s@, from as int, end as int) == spec_find_quote(
                s@,
                j as int,
                end as int,
            ),
        decreases end - j,
    {
        if s.get_char(j) == '"' {
            return Some(j);
        }
        j = j + 1;
    }
    None
}

/// The strings of a bracketed, comma-separated array of quoted values.
fn parse_string_array(s: &str) -> (r: Option<Vec<String>>)
    ensures
        match r {
            Some(v) => spec_parse_string_array(s@) == Some(cmd_view(v@)),
            None => spec_parse_string_array(s@) is None,
        },
{
    let len = s.unicode_len();
    if len < 2 {
        return None;
    }
    if s.get_char(0) != '[' || s.get_char(len - 1) != ']' {
        return None;
    }
    let mut out: Vec<String> = Vec::new();
    let mut i: usize = 1;
    let end = len - 1;
    let mut expect_comma = false;
    proof {
        assert(cmd_view(out@) =~= Seq::<Seq<char>>::empty());
    }
    while i < end
        invariant
            1 <= i <= end,
            end == len - 1,
            len == s@.len(),
            len >= 2,
            spec_parse_items(s@, 1, end as int, false) == (match spec_parse_items(
                s@,
                i as int,
                end as int,
                expect_comma,
            ) {
                Some(rest) => Some(cmd_view(out@) + rest),
                None => None::<Seq<Seq<char>>>,
            }),
        decreases end - i,
    {
        let c = s.get_char(i);
        if is_blank(c) {
            i = i + 1;
        } else if c == ',' {
            if !expect_comma {
                return None;
            }
            expect_comma = false;
            i = i + 1;
        } else if c == '"' {
            if expect_comma {
                return None;
            }
            let ghost i0 = i as int;
            let j = match find_quote(s, i + 1, end) {
                Some(j) => j,
                None => {
                    return None;
                },
            };
            let ghost o0 = cmd_view(out@);
            out.push(s.substring_char(i + 1, j).to_owned());
            expect_comma = true;
            i = j + 1;
            proof {
                assert(cmd_view(out@) =~= o0.push(s@.subrange(i0 + 1, j as int)));
                let r2 = spec_parse_items(s@, i as int, end as int, true);
                if r2 is Some {
                    assert(o0.push(s@.subrange(i0 + 1, j as int)) + r2->0 =~= o0 + (seq![
                        s@.subrange(i0 + 1, j as int),
                    ] + r2->0));
                }
            }
        } else {
            return None;
        }
    }
    proof {
        assert(cmd_view(out@) + Seq::<Seq<char>>::empty() =~= cmd_view(out@));
    }
    Some(out)
}

/// Which table the parser is inside.
#[derive(Clone, Copy, PartialEq, Eq, Structural)]
pub enum Section {
    Top,
    Fs,
    Run,
    FsBind,
}

/// Abstract state of the line-by-line reading.
pub ghost struct LoaderStV {
    pub section: Section,
    pub name: Option<Seq<char>>,
    pub cmd: Option<Seq<Seq<char>>>,
    pub binds: Seq<BindConfigV>,
    pub saw_bind: bool,
    pub cur_path: Option<Seq<char>>,
    pub cur_write: Option<bool>,
    pub in_bind: bool,
}

/// The state before any line.
pub open spec fn spec_loader_init() -> LoaderStV {
    LoaderStV {
        section: Section::Top,
        name: None,
        cmd: None,
        binds: Seq::empty(),
        saw_bind: false,
        cur_path: None,
        cur_write: None,
        in_bind: false,
    }
}

/// Close the open bind entry: its path must be present and absolute.
pub open spec fn spec_flush(st: LoaderStV) -> Option<LoaderStV> {
    if !st.in_bind {
        Some(st)
    } else {
        match st.cur_path {
            None => None,
            Some(p) => if !abs_path(p) {
                None
            } else {
                Some(
                    LoaderStV {
                        binds: st.binds.push(BindConfigV { path: p, write: st.cur_write }),
                        cur_path: None,
                        cur_write: None,
                        in_bind: false,
                        ..st
                    },
                )
            },
        }
    }
}

/// One line's effect on the state; `None` is a load error.
pub open spec fn spec_step(st: LoaderStV, line: Seq<char>) -> Option<LoaderStV> {
    let t = spec_trim(line);
    if t.len() == 0 || t[0] == '#' {
        Some(st)
    } else if t == "[[fs.bind]]"@ {
        match spec_flush(st) {
            None => None,
            Some(st) => Some(
                LoaderStV { section: Section::FsBind, saw_bind: true, in_bind: true, ..st },
            ),
        }
    } else if t == "[fs]"@ {
        match spec_flush(st) {
            None => None,
            Some(st) => Some(LoaderStV { section: Section::Fs, ..st }),
        }
    } else if t == "[run]"@ {
        match spec_flush(st) {
            None => None,
            Some(st) => Some(LoaderStV { section: Section::Run, ..st }),
        }
    } else if t[0] == '[' {
        None
    } else {
        let eq = spec_find_char(t, '=', 0);
        if eq < 0 || eq >= t.len() {
            None
        } else {
            let key = spec_trim(t.subrange(0, eq));
            let val = spec_trim(t.subrange(eq + 1, t.len() as int));
            if st.section == Section::Top && key == "name"@ {
                match spec_parse_quoted(val) {
                    None => None,
                    Some(v) => Some(LoaderStV { name: Some(v), ..st }),
                }
            } else if st.section == Section::FsBind && key == "path"@ {
                match spec_parse_quoted(val) {
                    None => None,
                    Some(v) => Some(LoaderStV { cur_path: Some(v), ..st }),
                }
            } else if st.section == Section::FsBind && key == "write"@ {
                match spec_parse_bool(val) {
                    None => None,
                    Some(v) => Some(LoaderStV { cur_write: Some(v), ..st }),
                }
            } else if st.section == Section::Run && key == "cmd"@ {
                match spec_parse_string_array(val) {
                    None => None,
                    Some(v) => Some(LoaderStV { cmd: Some(v), ..st }),
                }
            } else {
                None
            }
        }
    }
}

/// The state after every line, or the first error.
pub open spec fn spec_fold(st: LoaderStV, lines: Seq<Seq<char>>) -> Option<LoaderStV>
    decreases lines.len(),
{
    if lines.len() == 0 {
        Some(st)
    } else {
        match spec_step(st, lines.first()) {
            None => None,
            Some(st2) => spec_fold(st2, lines.drop_first()),
        }
    }
}

/// Assemble the profile: the trailing bind entry is closed, and `name` and
/// `run.cmd` must have been declared.
pub open spec fn spec_finish(st: LoaderStV) -> Option<ProfileConfigV> {
    match spec_flush(st) {
        None => None,
        Some(st) => match (st.name, st.cmd) {
            (Some(name), Some(cmd)) => Some(
                ProfileConfigV {
                    name,
                    fs: FsConfigV {
                        bind: if st.saw_bind {
                            Some(st.binds)
                        } else {
                            None
                        },
                    },
                    run: RunConfigV { cmd },
                },
            ),
            _ => None,
        },
    }
}

/// What a profile text means: line by line from the empty state, then the
/// final assembly.
pub open spec fn spec_parse_profile(text: Seq<char>) -> Option<ProfileConfigV> {
    match spec_fold(spec_loader_init(), spec_split_lines(text)) {
        None => None,
        Some(st) => spec_finish(st),
    }
}

/// Append a finished bind entry, refusing a missing or relative path.
fn flush_bind(
    binds: &mut Vec<BindConfig>,
    path: Option<String>,
    write: Option<bool>,
) -> (r: Result<(), ConfigError>)
    requires
        forall|j: int| 0 <= j < old(binds)@.len() ==> abs_path(#[trigger] old(binds)@[j]@.path),
    ensures
        r is Ok <==> (match path {
            None => false,
            Some(p) => abs_path(p@),
        }),
        r is Ok ==> bind_configs_view(final(binds)@) == bind_configs_view(old(binds)@).push(
            BindConfigV {
                path: path->0@,
                write,
            },
        ),
        r is Ok ==> forall|j: int|
            0 <= j < final(binds)@.len() ==> abs_path(#[trigger] final(binds)@[j]@.path),
        r is Err ==> *final(binds) == *old(binds),
{
    let path = match path {
        Some(p) => p,
        None => {
            return Err(
                ConfigError::new(String::from_str("missing path in a bind entry")),
            );
        },
    };
    if !is_absolute(path.as_str()) {
        return Err(
            ConfigError::new(String::from_str("a bind path must be absolute")),
        );
    }
    let ghost b0 = bind_configs_view(binds@);
    binds.push(BindConfig { path, write });
    proof {
        assert(bind_configs_view(binds@) =~= b0.push(binds@.last()@));
    }
    Ok(())
}

/// Parse one profile from its text: exactly the specification-level reading
/// of the grammar.  A relative bind path fails the load, so every loaded
/// profile grants absolute paths only.
pub fn get_config(contents: &str) -> (r: Result<ProfileConfig, ConfigError>)
    ensures
        r is Ok <==> spec_parse_profile(contents@) is Some,
        r matches Ok(p) ==> spec_parse_profile(contents@) == Some(p@),
        r matches Ok(p) ==> match p@.fs.bind {
            Some(bs) => forall|j: int| 0 <= j < bs.len() ==> abs_path(#[trigger] bs[j].path),
            None => true,
        },
{
    let lines = split_lines(contents);
    let mut name: Option<String> = None;
    let mut cmd: Option<Vec<String>> = None;
    let mut binds: Vec<BindConfig> = Vec::new();
    let mut saw_bind = false;
    let mut cur_path: Option<String> = None;
    let mut cur_write: Option<bool> = None;
    let mut in_bind = false;
    let mut section = Section::Top;
    let mut li: usize = 0;
    let ghost all = cmd_view(lines@);
    proof {
        assert(bind_configs_view(binds@) =~= Seq::<BindConfigV>::empty());
        assert(all.subrange(0, all.len() as int) =~= all);
    }
    while li < lines.len()
        invariant
            0 <= li <= lines@.len(),
            all == cmd_view(lines@),
            all == spec_split_lines(contents@),
            forall|j: int| 0 <= j < binds@.len() ==> abs_path(#[trigger] binds@[j]@.path),
            spec_fold(spec_loader_init(), all) == spec_fold(
                LoaderStV {
                    section,
                    name: match name {
                        Some(ref n) => Some(n@),
                        None => None,
                    },
                    cmd: match cmd {
                        Some(ref c) => Some(cmd_view(c@)),
                        None => None,
                    },
                    binds: bind_configs_view(binds@),
                    saw_bind,
                    cur_path: match cur_path {
                        Some(ref p) => Some(p@),
                        None => None,
                    },
                    cur_write,
                    in_bind,
                },
                all.subrange(li as int, all.len() as int),
            ),
        decreases lines@.len() - li,
    {
        let ghost st0 = LoaderStV {
            section,
            name: match name {
                Some(ref n) => Some(n@),
                None => None,
            },
            cmd: match cmd {
                Some(ref c) => Some(cmd_view(c@)),
                None => None,
            },
            binds: bind_configs_view(binds@),
            saw_bind,
            cur_path: match cur_path {
                Some(ref p) => Some(p@),
                None => None,
            },
            cur_write,
            in_bind,
        };
        let ghost li0 = li as int;
        let ghost line0 = all[li0];
        proof {
            assert(all.subrange(li0, all.len() as int).first() == line0);
            assert(all.subrange(li0, all.len() as int).drop_first() =~= all.subrange(
                li0 + 1,
                all.len() as int,
            ));
            assert(line0 == lines@[li0]@);
        }
        let t = trim(lines[li].as_str());
        li = li + 1;
        let tlen = t.as_str().unicode_len();
        if tlen == 0 {
            proof {
                assert(spec_step(st0, line0) == Some(st0));
                assert(spec_fold(st0, all.subrange(li0, all.len() as int)) == spec_fold(
                    st0,
                    all.subrange(li0 + 1, all.len() as int),
                ));
            }
            continue ;
        }
        if t.as_str().get_char(0) == '#' {
            proof {
                assert(spec_step(st0, line0) == Some(st0));
                assert(spec_fold(st0, all.subrange(li0, all.len() as int)) == spec_fold(
                    st0,
                    all.subrange(li0 + 1, all.len() as int),
                ));
            }
            continue ;
        }
        if str_eq(t.as_str(), "[[fs.bind]]") {
            if in_bind {
                if let Err(e) = flush_bind(&mut binds, cur_path, cur_write) {
                    proof {
                        assert(spec_flush(st0) is None);
                        assert(spec_step(st0, line0) is None);
                        assert(spec_fold(spec_loader_init(), all) is None);
                    }
                    return Err(e);
                }
                proof {
                    assert(spec_flush(st0) == Some(
                        LoaderStV {
                            binds: bind_configs_view(binds@),
                            cur_path: None,
                            cur_write: None,
                            in_bind: false,
                            ..st0
                        },
                    ));
                }
                cur_path = None;
                cur_write = None;
            }
            in_bind = true;
            saw_bind = true;
            section = Section::FsBind;
            proof {
                assert(spec_flush(st0) matches Some(f) && spec_step(st0, line0) == Some(
                    LoaderStV { section: Section::FsBind, saw_bind: true, in_bind: true, ..f },
                ));
                let sn = spec_step(st0, line0)->0;
                assert(spec_fold(st0, all.subrange(li0, all.len() as int)) == spec_fold(
                    sn,
                    all.subrange(li0 + 1, all.len() as int),
                ));
                assert(sn == LoaderStV {
                    section,
                    name: match name {
                        Some(ref n) => Some(n@),
                        None => None,
                    },
                    cmd: match cmd {
                        Some(ref c) => Some(cmd_view(c@)),
                        None => None,
                    },
                    binds: bind_configs_view(binds@),
                    saw_bind,
                    cur_path: match cur_path {
                        Some(ref p) => Some(p@),
                        None => None,
                    },
                    cur_write,
                    in_bind,
                });
            }
            continue ;
        }
        if str_eq(t.as_str(), "[fs]") {
            if in_bind {
                if let Err(e) = flush_bind(&mut binds, cur_path, cur_write) {
                    proof {
                        assert(spec_flush(st0) is None);
                        assert(spec_step(st0, line0) is None);
                        assert(spec_fold(spec_loader_init(), all) is None);
                    }
                    return Err(e);
                }
                proof {
                    assert(spec_flush(st0) == Some(
                        LoaderStV {
                            binds: bind_configs_view(binds@),
                            cur_path: None,
                            cur_write: None,
                            in_bind: false,
                            ..st0
                        },
                    ));
                }
                cur_path = None;
                cur_write = None;
                in_bind = false;
            }
            section = Section::Fs;
            proof {
                assert(spec_flush(st0) matches Some(f) && spec_step(st0, line0) == Some(
                    LoaderStV { section: Section::Fs, ..f },
                ));
                let sn = spec_step(st0, line0)->0;
                assert(spec_fold(st0, all.subrange(li0, all.len() as int)) == spec_fold(
                    sn,
                    all.subrange(li0 + 1, all.len() as int),
                ));
                assert(sn == LoaderStV {
                    section,
                    name: match name {
                        Some(ref n) => Some(n@),
                        None => None,
                    },
                    cmd: match cmd {
                        Some(ref c) => Some(cmd_view(c@)),
                        None => None,
                    },
                    binds: bind_configs_view(binds@),
                    saw_bind,
                    cur_path: match cur_path {
                        Some(ref p) => Some(p@),
                        None => None,
                    },
                    cur_write,
                    in_bind,
                });
            }
            continue ;
        }
        if str_eq(t.as_str(), "[run]") {
            if in_bind {
                if let Err(e) = flush_bind(&mut binds, cur_path, cur_write) {
                    proof {
                        assert(spec_flush(st0) is None);
                        assert(spec_step(st0, line0) is None);
                        assert(spec_fold(spec_loader_init(), all) is None);
                    }
                    return Err(e);
                }
                proof {
                    assert(spec_flush(st0) == Some(
                        LoaderStV {
                            binds: bind_configs_view(binds@),
                            cur_path: None,
                            cur_write: None,
                            in_bind: false,
                            ..st0
                        },
                    ));
                }
                cur_path = None;
                cur_write = None;
                in_bind = false;
            }
            section = Section::Run;
            proof {
                assert(spec_flush(st0) matches Some(f) && spec_step(st0, line0) == Some(
                    LoaderStV { section: Section::Run, ..f },
                ));
                let sn = spec_step(st0, line0)->0;
                assert(spec_fold(st0, all.subrange(li0, all.len() as int)) == spec_fold(
                    sn,
                    all.subrange(li0 + 1, all.len() as int),
                ));
                assert(sn == LoaderStV {
                    section,
                    name: match name {
                        Some(ref n) => Some(n@),
                        None => None,
                    },
                    cmd: match cmd {
                        Some(ref c) => Some(cmd_view(c@)),
                        None => None,
                    },
                    binds: bind_configs_view(binds@),
                    saw_bind,
                    cur_path: match cur_path {
                        Some(ref p) => Some(p@),
                        None => None,
                    },
                    cur_write,
                    in_bind,
                });
            }
            continue ;
        }
        if t.as_str().get_char(0) == '[' {
            proof {
                assert(spec_step(st0, line0) is None);
                assert(spec_fold(spec_loader_init(), all) is None);
            }
            return Err(ConfigError::new(String::from_str("unknown table")));
        }
        let eq = match find_char(t.as_str(), '=') {
            Some(i) => i,
            None => {
                proof {
                    assert(spec_step(st0, line0) is None);
                    assert(spec_fold(spec_loader_init(), all) is None);
                }
                return Err(ConfigError::new(String::from_str("expected a key and a value")));
            },
        };
        let key = trim(t.as_str().substring_char(0, eq));
        let val = trim(t.as_str().substring_char(eq + 1, tlen));
        let in_top = matches!(section, Section::Top);
        let in_fsbind = matches!(section, Section::FsBind);
        let in_run = matches!(section, Section::Run);
        if in_top && str_eq(key.as_str(), "name") {
            match parse_quoted(val.as_str()) {
                Some(v) => {
                    name = Some(v);
                    proof {
                        assert(spec_step(st0, line0) == Some(
                            LoaderStV { name: Some(name->0@), ..st0 },
                        ));
                        let sn = spec_step(st0, line0)->0;
                        assert(spec_fold(st0, all.subrange(li0, all.len() as int)) == spec_fold(
                            sn,
                            all.subrange(li0 + 1, all.len() as int),
                        ));
                    }
                },
                None => {
                    proof {
                        assert(spec_step(st0, line0) is None);
                        assert(spec_fold(spec_loader_init(), all) is None);
                    }
                    return Err(
                        ConfigError::new(String::from_str("name wants a quoted string")),
                    );
                },
            }
        } else if in_fsbind && str_eq(key.as_str(), "path") {
            match parse_quoted(val.as_str()) {
                Some(v) => {
                    cur_path = Some(v);
                    proof {
                        assert(spec_step(st0, line0) == Some(
                            LoaderStV { cur_path: Some(cur_path->0@), ..st0 },
                        ));
                        let sn = spec_step(st0, line0)->0;
                        assert(spec_fold(st0, all.subrange(li0, all.len() as int)) == spec_fold(
                            sn,
                            all.subrange(li0 + 1, all.len() as int),
                        ));
                    }
                },
                None => {
                    proof {
                        assert(spec_step(st0, line0) is None);
                        assert(spec_fold(spec_loader_init(), all) is None);
                    }
                    return Err(
                        ConfigError::new(String::from_str("path wants a quoted string")),
                    );
                },
            }
        } else if in_fsbind && str_eq(key.as_str(), "write") {
            match parse_bool(val.as_str()) {
                Some(v) => {
                    cur_write = Some(v);
                    proof {
                        assert(spec_step(st0, line0) == Some(
                            LoaderStV { cur_write, ..st0 },
                        ));
                        let sn = spec_step(st0, line0)->0;
                        assert(spec_fold(st0, all.subrange(li0, all.len() as int)) == spec_fold(
                            sn,
                            all.subrange(li0 + 1, all.len() as int),
                        ));
                    }
                },
                None => {
                    proof {
                        assert(spec_step(st0, line0) is None);
                        assert(spec_fold(spec_loader_init(), all) is None);
                    }
                    return Err(ConfigError::new(String::from_str("write wants a boolean")));
                },
            }
        } else if in_run && str_eq(key.as_str(), "cmd") {
            match parse_string_array(val.as_str()) {
                Some(v) => {
                    cmd = Some(v);
                    proof {
                        assert(spec_step(st0, line0) == Some(
                            LoaderStV { cmd: Some(cmd_view(cmd->0@)), ..st0 },
                        ));
                        let sn = spec_step(st0, line0)->0;
                        assert(spec_fold(st0, all.subrange(li0, all.len() as int)) == spec_fold(
                            sn,
                            all.subrange(li0 + 1, all.len() as int),
                        ));
                    }
                },
                None => {
                    proof {
                        assert(spec_step(st0, line0) is None);
                        assert(spec_fold(spec_loader_init(), all) is None);
                    }
                    return Err(ConfigError::new(String::from_str("cmd wants an array")));
                },
            }
        } else {
            proof {
                assert(spec_step(st0, line0) is None);
                assert(spec_fold(spec_loader_init(), all) is None);
            }
            return Err(ConfigError::new(String::from_str("unknown key")));
        }
    }
    let ghost st_end = LoaderStV {
        section,
        name: match name {
            Some(ref n) => Some(n@),
            None => None,
        },
        cmd: match cmd {
            Some(ref c) => Some(cmd_view(c@)),
            None => None,
        },
        binds: bind_configs_view(binds@),
        saw_bind,
        cur_path: match cur_path {
            Some(ref p) => Some(p@),
            None => None,
        },
        cur_write,
        in_bind,
    };
    proof {
        assert(all.subrange(lines@.len() as int, all.len() as int) =~= Seq::<Seq<char>>::empty());
        assert(spec_fold(spec_loader_init(), all) == Some(st_end));
    }
    if in_bind {
        if let Err(e) = flush_bind(&mut binds, cur_path, cur_write) {
            proof {
                assert(spec_flush(st_end) is None);
                assert(spec_finish(st_end) is None);
            }
            return Err(e);
        }
        proof {
            assert(spec_flush(st_end) == Some(
                LoaderStV {
                    binds: bind_configs_view(binds@),
                    cur_path: None,
                    cur_write: None,
                    in_bind: false,
                    ..st_end
                },
            ));
        }
        cur_path = None;
        cur_write = None;
        in_bind = false;
    } else {
        proof {
            assert(spec_flush(st_end) == Some(st_end));
        }
    }
    proof {
        assert(spec_flush(st_end) matches Some(f) && f.binds == bind_configs_view(binds@)
            && f.name == st_end.name && f.cmd == st_end.cmd && f.saw_bind == st_end.saw_bind);
    }
    let name = match name {
        Some(n) => n,
        None => {
            proof {
                assert(spec_finish(st_end) is None);
            }
            return Err(ConfigError::new(String::from_str("missing name")));
        },
    };
    let cmd = match cmd {
        Some(c) => c,
        None => {
            proof {
                assert(spec_finish(st_end) is None);
            }
            return Err(ConfigError::new(String::from_str("missing run.cmd")));
        },
    };
    let bind: Option<Vec<BindConfig>> = if saw_bind {
        Some(binds)
    } else {
        None
    };
    Ok(ProfileConfig { name, fs: FsConfig { bind }, run: crate::config::profile::RunConfig { cmd } })
}

} // verus!
