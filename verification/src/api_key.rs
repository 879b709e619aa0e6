use vstd::prelude::*;

use crate::paths::{
    ancestors, earliest_with, find_file_upwards, spec_path_join, first_existing, law_find_file_upwards,
    law_first_existing_is_earliest, none_with, path_parent, spec_path_parent, upward_candidates,
    upward_candidates_of,
};
use crate::text::{
    opt_string_view, opt_view,
    chars_of, char_position, find_char, lemma_char_position_bounds, range_equals, range_starts_with,
    trim, trim_range, trim_start, trim_start_range,
};

verus! {

/// The variable that holds the DJI API key, in the environment and in a `.env` file.
pub const DJI_API_KEY_ENV: &'static str = "DJI_API_KEY";

/// The prefix that a `.env` line may carry before its assignment.
pub const EXPORT_PREFIX: &'static str = "export ";

/// `value` trimmed, unless nothing is left of it.
pub open spec fn spec_non_empty(value: Seq<char>) -> Option<Seq<char>> {
    if trim(value).len() == 0 {
        None
    } else {
        Some(trim(value))
    }
}

/// `value` without one pair of matching enclosing quotes (`"` or `'`), if it has them.
pub open spec fn spec_strip_quotes(value: Seq<char>) -> Seq<char> {
    if value.len() >= 2 && ((value[0] == '"' && value.last() == '"') || (value[0] == '\''
        && value.last() == '\'')) {
        value.subrange(1, value.len() - 1)
    } else {
        value
    }
}

/// `s` without `prefix` when it starts with it, else `s`.
pub open spec fn strip_prefix_or_self(s: Seq<char>, prefix: Seq<char>) -> Seq<char> {
    if prefix.len() <= s.len() && s.subrange(0, prefix.len() as int) == prefix {
        s.subrange(prefix.len() as int, s.len() as int)
    } else {
        s
    }
}

/// The API key that one `.env` line assigns, if it assigns a non-blank one: blank lines and
/// `#` comments assign nothing; an optional `export ` comes first; the name before the first
/// `=` must be `DJI_API_KEY`; the value is trimmed and loses one pair of enclosing quotes.
pub open spec fn dotenv_line_api_key(line: Seq<char>) -> Option<Seq<char>> {
    let t = trim(line);
    if t.len() == 0 || t[0] == '#' {
        None
    } else {
        let u = trim_start(strip_prefix_or_self(t, EXPORT_PREFIX@));
        let eq = char_position(u, '=', 0);
        if eq >= u.len() {
            None
        } else if trim(u.subrange(0, eq)) != DJI_API_KEY_ENV@ {
            None
        } else {
            spec_non_empty(spec_strip_quotes(trim(u.subrange(eq + 1, u.len() as int))))
        }
    }
}

/// The key of the first line, from the one that starts at `start` on, that assigns one. Lines
/// end at `'\n'`; a `'\r'` before it is whitespace, which `dotenv_line_api_key` trims.
pub open spec fn dotenv_api_key_from(s: Seq<char>, start: int) -> Option<Seq<char>>
    decreases s.len() - start,
{
    if 0 <= start <= s.len() {
        let end = char_position(s, '\n', start);
        proof {
            lemma_char_position_bounds(s, '\n', start);
        }
        match dotenv_line_api_key(s.subrange(start, end)) {
            Some(key) => Some(key),
            None => if end < s.len() {
                dotenv_api_key_from(s, end + 1)
            } else {
                None
            },
        }
    } else {
        None
    }
}

/// The API key that the contents of a `.env` file assign.
pub open spec fn dotenv_api_key(contents: Seq<char>) -> Option<Seq<char>> {
    dotenv_api_key_from(contents, 0)
}

/// The API key chosen among the command line, the environment and a `.env` file, in that order
/// of preference, each counted only when it is not blank.
pub open spec fn spec_resolve_api_key(
    cli: Option<Seq<char>>,
    env: Option<Seq<char>>,
    dotenv: Option<Seq<char>>,
) -> Option<Seq<char>> {
    let from_cli = match cli {
        Some(v) => spec_non_empty(v),
        None => None,
    };
    let from_env = match env {
        Some(v) => spec_non_empty(v),
        None => None,
    };
    let from_dotenv = match dotenv {
        Some(c) => dotenv_api_key(c),
        None => None,
    };
    if from_cli is Some {
        from_cli
    } else if from_env is Some {
        from_env
    } else {
        from_dotenv
    }
}

/// `value` trimmed, or `None` when nothing is left of it.
pub fn non_empty_string(value: &str) -> (r: Option<String>)
    ensures
        opt_string_view(r) == spec_non_empty(value@),
{
    let v = chars_of(value);
    let (a, b) = trim_range(&v, 0, v.len());
    proof {
        assert(v@.subrange(0, v@.len() as int) =~= v@);
    }
    if a == b {
        None
    } else {
        Some(value.substring_char(a, b).to_owned())
    }
}

/// `value` without one pair of matching enclosing quotes.
pub fn strip_dotenv_quotes(value: &str) -> (r: &str)
    ensures
        r@ == spec_strip_quotes(value@),
{
    let v = chars_of(value);
    let n = v.len();
    if n >= 2 && ((v[0] == '"' && v[n - 1] == '"') || (v[0] == '\'' && v[n - 1] == '\'')) {
        value.substring_char(1, n - 1)
    } else {
        value
    }
}

/// The bounds in `v` of the key that the line `v[lo..hi]` assigns.
fn line_api_key_range(
    v: &Vec<char>,
    lo: usize,
    hi: usize,
    export: &Vec<char>,
    name: &Vec<char>,
) -> (r: Option<(usize, usize)>)
    requires
        lo <= hi <= v.len(),
        export@ == EXPORT_PREFIX@,
        name@ == DJI_API_KEY_ENV@,
    ensures
        match r {
            Some((a, b)) => lo <= a <= b <= hi && dotenv_line_api_key(
                v@.subrange(lo as int, hi as int),
            ) == Some(v@.subrange(a as int, b as int)),
            None => dotenv_line_api_key(v@.subrange(lo as int, hi as int)) is None,
        },
{
    let ghost line = v@.subrange(lo as int, hi as int);
    let (t0, t1) = trim_range(v, lo, hi);
    let ghost t = v@.subrange(t0 as int, t1 as int);
    if t0 == t1 {
        return None;
    }
    if v[t0] == '#' {
        return None;
    }
    let starts = range_starts_with(v, t0, t1, export);
    let p0 = if starts {
        t0 + export.len()
    } else {
        t0
    };
    proof {
        if starts {
            assert(t.subrange(0, export@.len() as int) =~= v@.subrange(
                t0 as int,
                t0 + export@.len(),
            ));
            assert(strip_prefix_or_self(t, EXPORT_PREFIX@) =~= v@.subrange(p0 as int, t1 as int));
        } else {
            if export@.len() <= t.len() {
                assert(t.subrange(0, export@.len() as int) =~= v@.subrange(
                    t0 as int,
                    t0 + export@.len(),
                ));
            }
            assert(strip_prefix_or_self(t, EXPORT_PREFIX@) =~= v@.subrange(p0 as int, t1 as int));
        }
    }
    let u0 = trim_start_range(v, p0, t1);
    let ghost u = v@.subrange(u0 as int, t1 as int);
    let eq = find_char(v, '=', u0, t1);
    if eq == t1 {
        return None;
    }
    let (k0, k1) = trim_range(v, u0, eq);
    proof {
        assert(u.subrange(0, eq - u0) =~= v@.subrange(u0 as int, eq as int));
    }
    if !range_equals(v, k0, k1, name) {
        return None;
    }
    let (w0, w1) = trim_range(v, eq + 1, t1);
    proof {
        assert(u.subrange(eq - u0 + 1, u.len() as int) =~= v@.subrange(eq + 1, t1 as int));
    }
    let quoted = w1 - w0 >= 2 && ((v[w0] == '"' && v[w1 - 1] == '"') || (v[w0] == '\'' && v[w1
        - 1] == '\''));
    let (q0, q1) = if quoted {
        (w0 + 1, w1 - 1)
    } else {
        (w0, w1)
    };
    proof {
        let w = v@.subrange(w0 as int, w1 as int);
        if w.len() >= 2 {
            assert(w[0] == v@[w0 as int]);
            assert(w.last() == v@[w1 - 1]);
        }
        assert(spec_strip_quotes(w) =~= v@.subrange(q0 as int, q1 as int));
    }
    let (n0, n1) = trim_range(v, q0, q1);
    if n0 == n1 {
        None
    } else {
        Some((n0, n1))
    }
}

/// The API key that the contents of a `.env` file assign to `DJI_API_KEY`: the first non-blank
/// one.
pub fn parse_dotenv_api_key(contents: &str) -> (r: Option<String>)
    ensures
        opt_string_view(r) == dotenv_api_key(contents@),
{
    let v = chars_of(contents);
    let export = chars_of(EXPORT_PREFIX);
    let name = chars_of(DJI_API_KEY_ENV);
    let n = v.len();
    let mut start: usize = 0;
    loop
        invariant
            0 <= start <= n,
            n == v@.len(),
            v@ == contents@,
            export@ == EXPORT_PREFIX@,
            name@ == DJI_API_KEY_ENV@,
            dotenv_api_key_from(v@, start as int) == dotenv_api_key(v@),
        decreases n - start,
    {
        let end = find_char(&v, '\n', start, n);
        match line_api_key_range(&v, start, end, &export, &name) {
            Some((a, b)) => {
                return Some(contents.substring_char(a, b).to_owned());
            },
            None => {},
        }
        if end == n {
            return None;
        }
        start = end + 1;
    }
}

/// The API key to use: the command line's, else the environment's, else the one that the `.env`
/// file's contents assign, whichever comes first that is not blank.
pub fn resolve_api_key(
    cli_api_key: Option<&str>,
    env_api_key: Option<&str>,
    dotenv_contents: Option<&str>,
) -> (r: Option<String>)
    ensures
        opt_string_view(r) == spec_resolve_api_key(
            opt_view(cli_api_key),
            opt_view(env_api_key),
            opt_view(dotenv_contents),
        ),
{
    if let Some(value) = cli_api_key {
        let key = non_empty_string(value);
        if key.is_some() {
            return key;
        }
    }
    if let Some(value) = env_api_key {
        let key = non_empty_string(value);
        if key.is_some() {
            return key;
        }
    }
    match dotenv_contents {
        Some(contents) => parse_dotenv_api_key(contents),
        None => None,
    }
}

} // verus!

verus! {

/// Whether `key` is a usable key: not empty, and neither starting nor ending with whitespace.
pub open spec fn is_trimmed_key(key: Seq<char>) -> bool {
    &&& key.len() > 0
    &&& !crate::text::is_white_space(key[0])
    &&& !crate::text::is_white_space(key.last())
}

/// A non-blank value yields itself trimmed, which neither starts nor ends with whitespace; a
/// blank one yields nothing.
pub proof fn law_non_empty_is_trimmed(value: Seq<char>)
    ensures
        spec_non_empty(value) matches Some(key) ==> key == trim(value) && is_trimmed_key(key),
        spec_non_empty(value) is None <==> forall|k: int|
            0 <= k < value.len() ==> crate::text::is_white_space(#[trigger] value[k]),
{
    crate::text::lemma_trim_shape(value);
}

proof fn lemma_dotenv_key_trimmed_from(s: Seq<char>, start: int)
    ensures
        dotenv_api_key_from(s, start) matches Some(key) ==> is_trimmed_key(key),
    decreases s.len() - start,
{
    if 0 <= start <= s.len() {
        let end = char_position(s, '\n', start);
        lemma_char_position_bounds(s, '\n', start);
        let line = s.subrange(start, end);
        let t = trim(line);
        if t.len() != 0 && t[0] != '#' {
            let u = trim_start(strip_prefix_or_self(t, EXPORT_PREFIX@));
            let eq = char_position(u, '=', 0);
            if eq < u.len() {
                law_non_empty_is_trimmed(
                    spec_strip_quotes(trim(u.subrange(eq + 1, u.len() as int))),
                );
            }
        }
        if end < s.len() {
            lemma_dotenv_key_trimmed_from(s, end + 1);
        }
    }
}

/// A key read from a `.env` file is never blank and never starts or ends with whitespace.
pub proof fn law_dotenv_key_is_trimmed(contents: Seq<char>)
    ensures
        dotenv_api_key(contents) matches Some(key) ==> is_trimmed_key(key),
{
    lemma_dotenv_key_trimmed_from(contents, 0);
}

/// Whether an optional value is missing or blank.
pub open spec fn is_blank(value: Option<Seq<char>>) -> bool {
    match value {
        Some(v) => trim(v).len() == 0,
        None => true,
    }
}

/// The command line's key wins when it is not blank; the environment's comes next; the `.env`
/// file counts only when both are missing or blank.
pub proof fn law_api_key_precedence(
    cli: Option<Seq<char>>,
    env: Option<Seq<char>>,
    dotenv: Option<Seq<char>>,
)
    ensures
        !is_blank(cli) ==> spec_resolve_api_key(cli, env, dotenv) == Some(trim(cli->Some_0)),
        is_blank(cli) && !is_blank(env) ==> spec_resolve_api_key(cli, env, dotenv) == Some(
            trim(env->Some_0),
        ),
        is_blank(cli) && is_blank(env) ==> spec_resolve_api_key(cli, env, dotenv) == match dotenv {
            Some(c) => dotenv_api_key(c),
            None => None,
        },
{
}

} // verus!

verus! {

proof fn lemma_char_position_shift(p: Seq<char>, r: Seq<char>, c: char, i: int)
    requires
        0 <= i <= r.len(),
    ensures
        char_position(p + r, c, p.len() + i) == p.len() + char_position(r, c, i),
    decreases r.len() - i,
{
    if i < r.len() {
        assert((p + r)[p.len() + i] == r[i]);
        if r[i] != c {
            lemma_char_position_shift(p, r, c, i + 1);
        }
    }
}

proof fn lemma_dotenv_from_shift(p: Seq<char>, r: Seq<char>, i: int)
    requires
        0 <= i <= r.len(),
    ensures
        dotenv_api_key_from(p + r, p.len() + i) == dotenv_api_key_from(r, i),
    decreases r.len() - i,
{
    let s = p + r;
    lemma_char_position_shift(p, r, '\n', i);
    lemma_char_position_bounds(r, '\n', i);
    let end = char_position(r, '\n', i);
    assert(s.subrange(p.len() + i, p.len() + end) =~= r.subrange(i, end));
    if end < r.len() {
        lemma_dotenv_from_shift(p, r, end + 1);
    }
}

/// Lines are read in order and the first that assigns a non-blank key wins: a `.env` text made
/// of a line, a newline and more text yields the line's key when it assigns one, and otherwise
/// what the rest yields.
pub proof fn law_first_assignment_wins(line: Seq<char>, rest: Seq<char>)
    requires
        !line.contains('\n'),
    ensures
        dotenv_api_key(line + seq!['\n'] + rest) == match dotenv_line_api_key(line) {
            Some(key) => Some(key),
            None => dotenv_api_key(rest),
        },
{
    let p = line + seq!['\n'];
    let s = p + rest;
    assert(line + seq!['\n'] + rest == s);
    assert forall|k: int| 0 <= k < line.len() implies s[k] != '\n' by {
        assert(s[k] == line[k]);
        if s[k] == '\n' {
            assert(line.contains(line[k]));
        }
    }
    lemma_char_position_bounds(s, '\n', 0);
    let end = char_position(s, '\n', 0);
    assert(s[line.len() as int] == '\n');
    assert(end == line.len()) by {
        if end < line.len() {
            assert(s[end] == '\n');
        }
    }
    assert(s.subrange(0, end) =~= line);
    lemma_dotenv_from_shift(p, rest, 0);
}

/// A `.env` text of one line (no newline) yields what that line assigns.
pub proof fn law_single_line(line: Seq<char>)
    requires
        !line.contains('\n'),
    ensures
        dotenv_api_key(line) == dotenv_line_api_key(line),
{
    lemma_char_position_bounds(line, '\n', 0);
    let end = char_position(line, '\n', 0);
    assert(end == line.len()) by {
        if end < line.len() {
            assert(line.contains(line[end]));
        }
    }
    assert(line.subrange(0, end) =~= line);
}

} // verus!

verus! {

/// The name of the file that may hold the API key.
pub const DOTENV_FILE_NAME: &'static str = ".env";

/// The places where a `.env` file is looked for: from the current directory upwards, then from
/// the executable's directory upwards.
pub open spec fn spec_dotenv_candidates(
    current_dir: Option<Seq<char>>,
    executable: Option<Seq<char>>,
) -> Seq<Seq<char>> {
    let from_current_dir = match current_dir {
        Some(dir) => upward_candidates_of(dir, DOTENV_FILE_NAME@),
        None => Seq::empty(),
    };
    let from_executable = match executable {
        Some(exe) => match spec_path_parent(exe) {
            Some(dir) => upward_candidates_of(dir, DOTENV_FILE_NAME@),
            None => Seq::empty(),
        },
        None => Seq::empty(),
    };
    from_current_dir + from_executable
}

/// The `.env` file to read: the nearest one above the current directory, else the nearest one
/// above the executable's directory; `existing_files` are the candidates that are files.
pub open spec fn spec_find_dotenv(
    current_dir: Option<Seq<char>>,
    executable: Option<Seq<char>>,
    existing_files: Seq<Seq<char>>,
) -> Option<Seq<char>> {
    let from_current_dir = match current_dir {
        Some(dir) => first_existing(upward_candidates_of(dir, DOTENV_FILE_NAME@), existing_files),
        None => None,
    };
    if from_current_dir is Some {
        from_current_dir
    } else {
        match executable {
            Some(exe) => match spec_path_parent(exe) {
                Some(dir) => first_existing(
                    upward_candidates_of(dir, DOTENV_FILE_NAME@),
                    existing_files,
                ),
                None => None,
            },
            None => None,
        }
    }
}

/// The places where a `.env` file is looked for, in order: from `current_dir` upwards, then
/// from the directory of `executable` upwards.
pub fn dotenv_candidates(current_dir: Option<&str>, executable: Option<&str>) -> (r: Vec<String>)
    ensures
        r.deep_view() == spec_dotenv_candidates(opt_view(current_dir), opt_view(executable)),
{
    let mut candidates: Vec<String> = match current_dir {
        Some(dir) => upward_candidates(dir, DOTENV_FILE_NAME),
        None => Vec::new(),
    };
    let ghost first = candidates.deep_view();
    let mut more: Vec<String> = match executable {
        Some(exe) => match path_parent(exe) {
            Some(dir) => upward_candidates(dir.as_str(), DOTENV_FILE_NAME),
            None => Vec::new(),
        },
        None => Vec::new(),
    };
    let ghost second = more.deep_view();
    candidates.append(&mut more);
    proof {
        assert(candidates.deep_view() =~= first + second);
        assert(first =~= match opt_view(current_dir) {
            Some(dir) => upward_candidates_of(dir, DOTENV_FILE_NAME@),
            None => Seq::empty(),
        });
        assert(second =~= match opt_view(executable) {
            Some(exe) => match spec_path_parent(exe) {
                Some(dir) => upward_candidates_of(dir, DOTENV_FILE_NAME@),
                None => Seq::empty(),
            },
            None => Seq::empty(),
        });
    }
    candidates
}

/// The `.env` file to read: the nearest one above `current_dir`, else the nearest one above the
/// directory of `executable`; `existing_files` are the candidates that are files.
pub fn find_dotenv(
    current_dir: Option<&str>,
    executable: Option<&str>,
    existing_files: &Vec<String>,
) -> (r: Option<String>)
    ensures
        opt_string_view(r) == spec_find_dotenv(
            opt_view(current_dir),
            opt_view(executable),
            existing_files.deep_view(),
        ),
{
    let from_current_dir = match current_dir {
        Some(dir) => find_file_upwards(dir, DOTENV_FILE_NAME, existing_files),
        None => None,
    };
    if from_current_dir.is_some() {
        return from_current_dir;
    }
    match executable {
        Some(exe) => match path_parent(exe) {
            Some(dir) => find_file_upwards(dir.as_str(), DOTENV_FILE_NAME, existing_files),
            None => None,
        },
        None => None,
    }
}

} // verus!

verus! {

/// The `.env` search looks first in the current directory itself, then upwards from it, and
/// takes the nearest `.env` on that way, whatever the executable.
pub proof fn law_dotenv_current_dir_first(
    current_dir: Seq<char>,
    executable: Option<Seq<char>>,
    existing: Seq<Seq<char>>,
)
    ensures
        existing.contains(spec_path_join(current_dir, DOTENV_FILE_NAME@)) ==> spec_find_dotenv(
            Some(current_dir),
            executable,
            existing,
        ) == Some(spec_path_join(current_dir, DOTENV_FILE_NAME@)),
        forall|k: int|
            #[trigger] earliest_with(ancestors(current_dir), DOTENV_FILE_NAME@, existing, k)
                ==> spec_find_dotenv(Some(current_dir), executable, existing) == Some(
                spec_path_join(ancestors(current_dir)[k], DOTENV_FILE_NAME@),
            ),
{
    law_find_file_upwards(current_dir, DOTENV_FILE_NAME@, existing);
}

/// Only when there is no `.env` from the current directory upwards (or no current directory) is
/// the executable's directory searched upwards, for the nearest `.env`; nothing is found when
/// there is none there either.
pub proof fn law_dotenv_executable_next(
    current_dir: Option<Seq<char>>,
    executable: Seq<char>,
    existing: Seq<Seq<char>>,
)
    requires
        current_dir is None || none_with(ancestors(current_dir->Some_0), DOTENV_FILE_NAME@, existing),
    ensures
        spec_path_parent(executable) is None ==> spec_find_dotenv(
            current_dir,
            Some(executable),
            existing,
        ) is None,
        forall|k: int|
            #[trigger] earliest_with(
                ancestors(spec_path_parent(executable)->Some_0),
                DOTENV_FILE_NAME@,
                existing,
                k,
            ) && spec_path_parent(executable) is Some ==> spec_find_dotenv(
                current_dir,
                Some(executable),
                existing,
            ) == Some(spec_path_join(ancestors(spec_path_parent(executable)->Some_0)[k], DOTENV_FILE_NAME@)),
        spec_path_parent(executable) is Some && none_with(
            ancestors(spec_path_parent(executable)->Some_0),
            DOTENV_FILE_NAME@,
            existing,
        ) ==> spec_find_dotenv(current_dir, Some(executable), existing) is None,
{
    if current_dir is Some {
        law_find_file_upwards(current_dir->Some_0, DOTENV_FILE_NAME@, existing);
    }
    if spec_path_parent(executable) is Some {
        law_find_file_upwards(spec_path_parent(executable)->Some_0, DOTENV_FILE_NAME@, existing);
    }
}

/// Without a current directory and an executable, no `.env` is found; a `.env` that is found is
/// always one of the existing files.
pub proof fn law_dotenv_found_exists(
    current_dir: Option<Seq<char>>,
    executable: Option<Seq<char>>,
    existing: Seq<Seq<char>>,
)
    ensures
        spec_find_dotenv(None, None, existing) is None,
        spec_find_dotenv(current_dir, executable, existing) matches Some(found)
            ==> existing.contains(found),
{
    if current_dir is Some {
        law_first_existing_is_earliest(
            upward_candidates_of(current_dir->Some_0, DOTENV_FILE_NAME@),
            existing,
        );
    }
    if executable is Some && spec_path_parent(executable->Some_0) is Some {
        law_first_existing_is_earliest(
            upward_candidates_of(spec_path_parent(executable->Some_0)->Some_0, DOTENV_FILE_NAME@),
            existing,
        );
    }
}

} // verus!

verus! {

proof fn lemma_trim_unchanged(s: Seq<char>)
    requires
        s.len() > 0,
        !crate::text::is_white_space(s[0]),
        !crate::text::is_white_space(s.last()),
    ensures
        trim(s) == s,
        trim_start(s) == s,
{
    assert(crate::text::leading_ws_end(s, 0) == 0);
    assert(crate::text::trailing_ws_start(s, s.len() as int) == s.len());
    assert(s.subrange(0, s.len() as int) =~= s);
}

/// A line that assigns a quoted value to `DJI_API_KEY`, with or without `export ` in front and
/// with either kind of quotes, assigns the value without its quotes, trimmed (nothing when it is
/// blank).
pub proof fn law_quoted_assignment(value: Seq<char>, quote: char, exported: bool)
    requires
        quote == '"' || quote == '\'',
    ensures
        dotenv_line_api_key(
            (if exported {
                EXPORT_PREFIX@
            } else {
                Seq::empty()
            }) + DJI_API_KEY_ENV@ + seq!['='] + seq![quote] + value + seq![quote],
        ) == spec_non_empty(value),
{
    reveal_strlit("DJI_API_KEY");
    reveal_strlit("export ");
    let name = DJI_API_KEY_ENV@;
    let prefix = if exported {
        EXPORT_PREFIX@
    } else {
        Seq::<char>::empty()
    };
    let body = name + seq!['='] + seq![quote] + value + seq![quote];
    let line = prefix + name + seq!['='] + seq![quote] + value + seq![quote];
    assert(line =~= prefix + body);
    assert(name.len() == 11);
    assert(body[0] == 'D');
    assert(body.last() == quote);
    lemma_trim_unchanged(body);
    if exported {
        assert(line[0] == 'e');
    } else {
        assert(line =~= body);
    }
    assert(line.last() == quote);
    lemma_trim_unchanged(line);
    let t = trim(line);
    assert(t == line);
    assert(t[0] != '#');
    let stripped = strip_prefix_or_self(t, EXPORT_PREFIX@);
    if exported {
        assert(t.subrange(0, 7) =~= EXPORT_PREFIX@);
        assert(stripped =~= body);
    } else {
        assert(t.subrange(0, 7)[0] == 'D');
        assert(stripped == body);
    }
    let u = trim_start(stripped);
    assert(u == body);
    lemma_char_position_bounds(u, '=', 0);
    let eq = char_position(u, '=', 0);
    assert(u[11] == '=');
    assert forall|k: int| 0 <= k < 11 implies u[k] != '=' by {
        assert(u[k] == name[k]);
    }
    assert(eq == 11) by {
        if eq < 11 {
            assert(u[eq] == '=');
            assert(u[eq] != '=');
        }
    }
    assert(u.subrange(0, 11) =~= name);
    assert(name[0] == 'D');
    assert(name.last() == 'Y');
    lemma_trim_unchanged(name);
    let quoted = u.subrange(12, u.len() as int);
    assert(quoted =~= seq![quote] + value + seq![quote]);
    assert(quoted[0] == quote);
    assert(quoted.last() == quote);
    lemma_trim_unchanged(quoted);
    assert(spec_strip_quotes(quoted) =~= value);
}

/// A line `DJI_API_KEY=<value>`, with or without `export ` in front, assigns the value
/// trimmed, without one pair of enclosing quotes, and trimmed again (nothing when that is
/// blank): the `export ` prefix changes nothing, and the value is everything after the first
/// `=`.
pub proof fn law_assignment_value(value: Seq<char>, exported: bool)
    requires
        value.len() > 0,
        !crate::text::is_white_space(value.last()),
    ensures
        dotenv_line_api_key(
            (if exported {
                EXPORT_PREFIX@
            } else {
                Seq::empty()
            }) + DJI_API_KEY_ENV@ + seq!['='] + value,
        ) == spec_non_empty(spec_strip_quotes(trim(value))),
{
    reveal_strlit("DJI_API_KEY");
    reveal_strlit("export ");
    let name = DJI_API_KEY_ENV@;
    let prefix = if exported {
        EXPORT_PREFIX@
    } else {
        Seq::<char>::empty()
    };
    let body = name + seq!['='] + value;
    let line = prefix + name + seq!['='] + value;
    assert(line =~= prefix + body);
    assert(name.len() == 11);
    assert(body[0] == 'D');
    assert(body.last() == value.last());
    lemma_trim_unchanged(body);
    if exported {
        assert(line[0] == 'e');
    } else {
        assert(line =~= body);
    }
    assert(line.last() == value.last());
    lemma_trim_unchanged(line);
    let t = trim(line);
    assert(t[0] != '#');
    let stripped = strip_prefix_or_self(t, EXPORT_PREFIX@);
    if exported {
        assert(t.subrange(0, 7) =~= EXPORT_PREFIX@);
        assert(stripped =~= body);
    } else {
        assert(t.subrange(0, 7)[0] == 'D');
        assert(stripped == body);
    }
    let u = trim_start(stripped);
    assert(u == body);
    lemma_char_position_bounds(u, '=', 0);
    let eq = char_position(u, '=', 0);
    assert(u[11] == '=');
    assert forall|k: int| 0 <= k < 11 implies u[k] != '=' by {
        assert(u[k] == name[k]);
    }
    assert(eq == 11) by {
        if eq < 11 {
            assert(u[eq] == '=');
            assert(u[eq] != '=');
        }
    }
    assert(u.subrange(0, 11) =~= name);
    assert(name[0] == 'D');
    assert(name.last() == 'Y');
    lemma_trim_unchanged(name);
    assert(u.subrange(12, u.len() as int) =~= value);
}

/// One pair of matching quotes, double or single, is removed; a value that does not start and
/// end with the same quote is kept as it is.
pub proof fn law_strip_quotes(value: Seq<char>, inner: Seq<char>, quote: char)
    requires
        quote == '"' || quote == '\'',
    ensures
        spec_strip_quotes(seq![quote] + inner + seq![quote]) == inner,
        value.len() < 2 || (value[0] != '"' && value[0] != '\'') || value[0] != value.last()
            ==> spec_strip_quotes(value) == value,
{
    let q = seq![quote] + inner + seq![quote];
    assert(q[0] == quote);
    assert(q.last() == quote);
    assert(q.subrange(1, q.len() - 1) =~= inner);
}

/// The `.env` candidates are `.env` in the current directory and each of its ancestors, in
/// order, followed by `.env` in the executable's directory and each of its ancestors.
pub proof fn law_dotenv_candidates(current_dir: Seq<char>, executable: Seq<char>)
    ensures
        ({
            let c = spec_dotenv_candidates(Some(current_dir), Some(executable));
            let here = ancestors(current_dir);
            &&& c[0] == spec_path_join(current_dir, DOTENV_FILE_NAME@)
            &&& forall|k: int|
                0 <= k < here.len() ==> #[trigger] c[k] == spec_path_join(
                    here[k],
                    DOTENV_FILE_NAME@,
                )
            &&& spec_path_parent(executable) is None ==> c.len() == here.len()
            &&& spec_path_parent(executable) matches Some(p) ==> c.len() == here.len()
                + ancestors(p).len() && forall|k: int|
                0 <= k < ancestors(p).len() ==> #[trigger] c[here.len() + k] == spec_path_join(
                    ancestors(p)[k],
                    DOTENV_FILE_NAME@,
                )
        }),
{
    crate::paths::law_upward_candidates(current_dir, DOTENV_FILE_NAME@);
    if spec_path_parent(executable) is Some {
        crate::paths::law_upward_candidates(
            spec_path_parent(executable)->Some_0,
            DOTENV_FILE_NAME@,
        );
    }
}

} // verus!
