//! The resolution pipeline: what one invocation should do, decided from
//! the command-line arguments and a snapshot of the environment.
//!
//! Every environment read happens outside this crate; the caller samples
//! the variables, directory listings and file checks once into
//! [`EnvironmentFacts`], and resolution is then a pure function of its
//! inputs.

use vstd::prelude::*;

use crate::error::Error;
use crate::path::{
    all_executables, available_executables, choose_executable, file_set, spec_dir_entries,
    spec_filter, spec_scan, table_view,
};
use crate::text::{spec_starts_with, spec_trim, str_eq, str_starts_with, trim};
use crate::version::{
    python_prefix, spec_component_err, spec_env_var_name, spec_requested_ok, version_le,
    ExactVersion, RequestedVersion,
};

verus! {

/// A snapshot of everything the resolution pipeline reads from the
/// process environment and the filesystem, sampled fresh by the caller
/// for each resolution.
pub struct EnvironmentFacts {
    /// The value of the `VIRTUAL_ENV` environment variable, when set.
    pub virtual_env: Option<String>,
    /// The `bin/python` path of a `.venv` directory found in the current
    /// directory or an ancestor, when one exists.
    pub dir_venv_python: Option<String>,
    /// The first line of the file named by the first forwarded argument,
    /// when that file could be opened and the line read as text.
    pub first_line: Option<String>,
    /// Environment variables as name-value pairs, for the `PY_PYTHON`
    /// override lookups.
    pub env_vars: Vec<(String, String)>,
    /// The entries of each directory on `PATH`, in search order; a
    /// directory that could not be read contributes an empty listing.
    pub dirs: Vec<Vec<String>>,
    /// The candidate paths known to be existing regular files.
    pub files: Vec<String>,
}

/// Represents the possible outcomes based on CLI arguments.
#[derive(Debug, PartialEq)]
pub enum Action {
    /// Print help, then defer to the found Python executable's own help.
    Help(String),
    /// List all found executables; the consumer queries the table.
    List,
    /// Details for executing a found Python executable.
    Execute {
        launcher_path: String,
        executable: String,
        args: Vec<String>,
    },
}

/// An entry of `e` inserted into a table sorted ascending by version,
/// before the first entry whose version is not below it.
pub open spec fn spec_insert_sorted(
    e: (ExactVersion, Seq<char>),
    t: Seq<(ExactVersion, Seq<char>)>,
) -> Seq<(ExactVersion, Seq<char>)>
    decreases t.len(),
{
    if t.len() == 0 {
        seq![e]
    } else if version_le(e.0, t[0].0) {
        seq![e] + t
    } else {
        seq![t[0]] + spec_insert_sorted(e, t.drop_first())
    }
}

/// The table rearranged ascending by version, by repeated insertion.
pub open spec fn spec_sort(t: Seq<(ExactVersion, Seq<char>)>) -> Seq<(ExactVersion, Seq<char>)>
    decreases t.len(),
{
    if t.len() == 0 {
        t
    } else {
        spec_insert_sorted(t.last(), spec_sort(t.drop_last()))
    }
}

/// Inserting before the first position whose version is not below the
/// new entry is what `spec_insert_sorted` does.
proof fn lemma_insert_sorted_at(
    e: (ExactVersion, Seq<char>),
    t: Seq<(ExactVersion, Seq<char>)>,
    k: int,
)
    requires
        0 <= k <= t.len(),
        forall|j: int| 0 <= j < k ==> !version_le(e.0, #[trigger] t[j].0),
        k == t.len() || version_le(e.0, t[k].0),
    ensures
        spec_insert_sorted(e, t) == t.insert(k, e),
    decreases k,
{
    if k == 0 {
        if t.len() == 0 {
            assert(spec_insert_sorted(e, t) =~= t.insert(0, e));
        } else {
            assert(seq![e] + t =~= t.insert(0, e));
        }
    } else {
        assert(forall|j: int| 0 < j < t.len() ==> t[j] == t.drop_first()[j - 1]);
        lemma_insert_sorted_at(e, t.drop_first(), k - 1);
        assert(seq![t[0]] + t.drop_first().insert(k - 1, e) =~= t.insert(k, e));
    }
}

/// A run of spaces of the given length.
pub open spec fn spec_spaces(n: int) -> Seq<char>
    decreases n,
{
    if n <= 0 {
        Seq::empty()
    } else {
        spec_spaces(n - 1).push(' ')
    }
}

/// `s` padded on the right with spaces to width `w`.
pub open spec fn spec_pad(s: Seq<char>, w: int) -> Seq<char> {
    s + spec_spaces(w - s.len())
}

/// The characters of the listing's left column header.
pub open spec fn version_header() -> Seq<char> {
    seq!['V', 'e', 'r', 's', 'i', 'o', 'n']
}

/// The length of the longest rendered version in the table.
pub open spec fn spec_max_version_len(t: Seq<(ExactVersion, Seq<char>)>) -> int
    decreases t.len(),
{
    if t.len() == 0 {
        0
    } else {
        let rest = spec_max_version_len(t.drop_last());
        let own = crate::version::spec_render_exact(t.last().0).len() as int;
        if own > rest {
            own
        } else {
            rest
        }
    }
}

/// The width of the listing's left column: wide enough for its header
/// and for every rendered version.
pub open spec fn spec_col_width(t: Seq<(ExactVersion, Seq<char>)>) -> int {
    if spec_max_version_len(t) > 7 {
        spec_max_version_len(t)
    } else {
        7
    }
}

/// The listing's rows, one per entry in table order: the padded version,
/// two spaces, the path, a newline.
pub open spec fn spec_listing_rows(t: Seq<(ExactVersion, Seq<char>)>, w: int) -> Seq<char>
    decreases t.len(),
{
    if t.len() == 0 {
        Seq::empty()
    } else {
        spec_listing_rows(t.drop_last(), w) + spec_pad(
            crate::version::spec_render_exact(t.last().0),
            w,
        ) + seq![' ', ' '] + t.last().1 + seq!['\n']
    }
}

/// The listing's header lines.
pub open spec fn spec_listing_header(w: int) -> Seq<char> {
    spec_pad(version_header(), w) + seq![' ', ' '] + seq!['P', 'a', 't', 'h'] + seq!['\n']
        + spec_pad(seq!['=', '=', '=', '=', '=', '=', '='], w) + seq![' ', ' '] + seq![
        '=',
        '=',
        '=',
        '=',
    ] + seq!['\n']
}

/// The whole listing of a table: the headers, then a row per entry.
pub open spec fn spec_render_listing(t: Seq<(ExactVersion, Seq<char>)>) -> Seq<char> {
    spec_listing_header(spec_col_width(t)) + spec_listing_rows(t, spec_col_width(t))
}

fn spaces(n: usize) -> (r: String)
    ensures
        r@ == spec_spaces(n as int),
{
    let mut out = String::new();
    let mut i: usize = 0;
    while i < n
        invariant
            0 <= i <= n,
            out@ == spec_spaces(i as int),
        decreases n - i,
    {
        proof {
            reveal_strlit(" ");
        }
        out.append(" ");
        proof {
            assert(out@ =~= spec_spaces(i as int + 1));
        }
        i += 1;
    }
    out
}

fn pad_to(s: &str, w: usize) -> (r: String)
    ensures
        r@ == spec_pad(s@, w as int),
{
    let mut out = s.to_owned();
    let len = s.unicode_len();
    if len < w {
        let fill = spaces(w - len);
        out.append(fill.as_str());
        proof {
            assert(out@ =~= spec_pad(s@, w as int));
        }
    } else {
        proof {
            assert(spec_spaces(w - s@.len()) =~= Seq::<char>::empty());
            assert(out@ =~= spec_pad(s@, w as int));
        }
    }
    out
}

/// Format the executable table as text: a version column wide enough for
/// the longest entry, a path column, and one row per executable in
/// ascending version order. An empty table is the no-executable error.
pub fn list_executables(executables: &Vec<(ExactVersion, String)>) -> (r: Result<String, Error>)
    ensures
        executables@.len() == 0 ==> r == Err::<String, Error>(
            Error::NoExecutableFound(RequestedVersion::Any),
        ),
        executables@.len() > 0 ==> (r matches Ok(s) && s@ == spec_render_listing(
            spec_sort(table_view(executables@)),
        )),
{
    if executables.len() == 0 {
        return Err(Error::NoExecutableFound(RequestedVersion::Any));
    }
    let ghost tv = table_view(executables@);
    let mut pairs: Vec<(ExactVersion, String)> = Vec::new();
    let mut i: usize = 0;
    proof {
        assert(tv.take(0) =~= Seq::<(ExactVersion, Seq<char>)>::empty());
        assert(table_view(pairs@) =~= spec_sort(tv.take(0)));
    }
    while i < executables.len()
        invariant
            0 <= i <= executables@.len(),
            tv == table_view(executables@),
            table_view(pairs@) == spec_sort(tv.take(i as int)),
        decreases executables@.len() - i,
    {
        let e = &executables[i];
        let ghost entry = (e.0, e.1@);
        let ghost sorted = table_view(pairs@);
        let mut pos: usize = 0;
        while pos < pairs.len() && pairs_lt(&pairs, pos, &e.0)
            invariant
                0 <= pos <= pairs@.len(),
                sorted == table_view(pairs@),
                entry.0 == e.0,
                forall|j: int| 0 <= j < pos ==> !version_le(entry.0, #[trigger] sorted[j].0),
            decreases pairs@.len() - pos,
        {
            pos += 1;
        }
        proof {
            lemma_insert_sorted_at(entry, sorted, pos as int);
        }
        pairs.insert(pos, (e.0, e.1.clone()));
        proof {
            assert(table_view(pairs@) =~= sorted.insert(pos as int, entry));
            assert(tv.take(i as int + 1).drop_last() =~= tv.take(i as int));
            assert(tv.take(i as int + 1).last() == entry);
        }
        i += 1;
    }
    proof {
        assert(tv.take(executables@.len() as int) =~= tv);
    }
    let ghost sorted_tv = spec_sort(tv);
    let mut max_len: usize = 0;
    let mut k: usize = 0;
    while k < pairs.len()
        invariant
            0 <= k <= pairs@.len(),
            sorted_tv == table_view(pairs@),
            max_len as int == spec_max_version_len(table_view(pairs@).take(k as int)),
        decreases pairs@.len() - k,
    {
        let version_string = pairs[k].0.to_string();
        let l = version_string.as_str().unicode_len();
        proof {
            assert(table_view(pairs@).take(k as int + 1).drop_last() =~= table_view(
                pairs@,
            ).take(k as int));
            assert(table_view(pairs@).take(k as int + 1).last() == table_view(pairs@)[k as int]);
        }
        if l > max_len {
            max_len = l;
        }
        k += 1;
    }
    proof {
        assert(table_view(pairs@).take(pairs@.len() as int) =~= table_view(pairs@));
    }
    let width = if max_len < 7 {
        7
    } else {
        max_len
    };
    proof {
        reveal_strlit("Version");
        reveal_strlit("Path");
        reveal_strlit("=======");
        reveal_strlit("====");
        reveal_strlit("  ");
        reveal_strlit("\n");
        assert("Version"@ =~= version_header());
        assert("======="@ =~= seq!['=', '=', '=', '=', '=', '=', '=']);
        assert("Version"@.len() == 7);
    }
    let mut help_string = pad_to("Version", width);
    help_string.append("  ");
    help_string.append("Path");
    help_string.append("\n");
    let eq_pad = pad_to("=======", width);
    help_string.append(eq_pad.as_str());
    help_string.append("  ");
    help_string.append("====");
    help_string.append("\n");
    proof {
        assert(help_string@ =~= spec_listing_header(width as int));
        assert(spec_listing_rows(sorted_tv.take(0), width as int) =~= Seq::<char>::empty());
        assert(help_string@ =~= spec_listing_header(width as int) + spec_listing_rows(
            sorted_tv.take(0),
            width as int,
        ));
    }
    let mut k2: usize = 0;
    while k2 < pairs.len()
        invariant
            0 <= k2 <= pairs@.len(),
            sorted_tv == table_view(pairs@),
            width >= 7,
            help_string@ == spec_listing_header(width as int) + spec_listing_rows(
                sorted_tv.take(k2 as int),
                width as int,
            ),
        decreases pairs@.len() - k2,
    {
        proof {
            reveal_strlit("  ");
            reveal_strlit("\n");
        }
        let version_string = pairs[k2].0.to_string();
        let padded = pad_to(version_string.as_str(), width);
        help_string.append(padded.as_str());
        help_string.append("  ");
        help_string.append(pairs[k2].1.as_str());
        help_string.append("\n");
        proof {
            assert(sorted_tv.take(k2 as int + 1).drop_last() =~= sorted_tv.take(k2 as int));
            assert(sorted_tv.take(k2 as int + 1).last() == sorted_tv[k2 as int]);
            assert(help_string@ =~= spec_listing_header(width as int) + spec_listing_rows(
                sorted_tv.take(k2 as int + 1),
                width as int,
            ));
        }
        k2 += 1;
    }
    proof {
        assert(sorted_tv.take(pairs@.len() as int) =~= sorted_tv);
        assert(width as int == spec_col_width(tv)) by {
            lemma_sort_same_max(tv);
        }
    }
    Ok(help_string)
}

fn pairs_lt(pairs: &Vec<(ExactVersion, String)>, pos: usize, v: &ExactVersion) -> (r: bool)
    requires
        pos < pairs@.len(),
    ensures
        r == !version_le(*v, table_view(pairs@)[pos as int].0),
{
    let entry_version = &pairs[pos].0;
    entry_version.major < v.major || (entry_version.major == v.major && entry_version.minor
        < v.minor)
}

/// The length of one entry's rendered version.
spec fn entry_len(e: (ExactVersion, Seq<char>)) -> int {
    crate::version::spec_render_exact(e.0).len() as int
}

/// The larger of two lengths.
spec fn max2(a: int, b: int) -> int {
    if a > b {
        a
    } else {
        b
    }
}

/// Front decomposition of the longest rendered version.
proof fn lemma_max_cons(e: (ExactVersion, Seq<char>), t: Seq<(ExactVersion, Seq<char>)>)
    ensures
        spec_max_version_len(seq![e] + t) == max2(entry_len(e), spec_max_version_len(t)),
    decreases t.len(),
{
    if t.len() == 0 {
        assert(seq![e] + t =~= seq![e]);
        assert((seq![e]).drop_last() =~= Seq::<(ExactVersion, Seq<char>)>::empty());
        assert(spec_max_version_len(Seq::<(ExactVersion, Seq<char>)>::empty()) == 0);
        assert((seq![e]).last() == e);
    } else {
        assert((seq![e] + t).drop_last() =~= seq![e] + t.drop_last());
        assert((seq![e] + t).last() == t.last());
        lemma_max_cons(e, t.drop_last());
    }
}

/// Inserting an entry into a table raises the longest rendered version
/// to at least its own, and no further.
proof fn lemma_insert_max(e: (ExactVersion, Seq<char>), t: Seq<(ExactVersion, Seq<char>)>)
    ensures
        spec_max_version_len(spec_insert_sorted(e, t)) == max2(entry_len(e), spec_max_version_len(
            t,
        )),
    decreases t.len(),
{
    if t.len() == 0 {
        lemma_max_cons(e, t);
        assert(seq![e] + t =~= seq![e]);
    } else if version_le(e.0, t[0].0) {
        lemma_max_cons(e, t);
    } else {
        lemma_insert_max(e, t.drop_first());
        lemma_max_cons(t[0], spec_insert_sorted(e, t.drop_first()));
        lemma_max_cons(t[0], t.drop_first());
        assert(seq![t[0]] + t.drop_first() =~= t);
    }
}

/// Sorting does not change the longest rendered version.
proof fn lemma_sort_same_max(t: Seq<(ExactVersion, Seq<char>)>)
    ensures
        spec_max_version_len(spec_sort(t)) == spec_max_version_len(t),
    decreases t.len(),
{
    if t.len() > 0 {
        lemma_sort_same_max(t.drop_last());
        lemma_insert_max(t.last(), spec_sort(t.drop_last()));
    }
}

/// The characters of `bin/python`, the executable inside a virtual
/// environment.
pub open spec fn bin_python() -> Seq<char> {
    seq!['b', 'i', 'n', '/', 'p', 'y', 't', 'h', 'o', 'n']
}

/// The venv executable path: the root joined with `bin/python`, adding a
/// `/` separator unless the root is empty or already ends in one.
pub open spec fn spec_venv_executable_path(root: Seq<char>) -> Seq<char> {
    if root.len() == 0 {
        bin_python()
    } else if root.last() == '/' {
        root + bin_python()
    } else {
        root + seq!['/'] + bin_python()
    }
}

/// The virtual environment the pipeline would use without an explicit
/// version request: the activated one, else the `.venv` one.
pub open spec fn spec_venv_executable(facts: EnvironmentFacts) -> Option<Seq<char>> {
    match facts.virtual_env {
        Some(root) => Some(spec_venv_executable_path(root@)),
        None => match facts.dir_venv_python {
            Some(p) => Some(p@),
            None => None,
        },
    }
}

/// Returns the path to a virtual environment's `python` executable given
/// the environment's root directory.
pub fn venv_executable_path(venv_root: &str) -> (r: String)
    ensures
        r@ == spec_venv_executable_path(venv_root@),
{
    proof {
        reveal_strlit("bin/python");
        reveal_strlit("/bin/python");
        assert("bin/python"@ =~= bin_python());
        assert("/bin/python"@ =~= seq!['/'] + bin_python());
    }
    let len = venv_root.unicode_len();
    if len == 0 {
        String::from_str("bin/python")
    } else if venv_root.get_char(len - 1) == '/' {
        venv_root.to_owned().concat("bin/python")
    } else {
        venv_root.to_owned().concat("/bin/python")
    }
}

/// The activated virtual environment's executable, from the sampled
/// `VIRTUAL_ENV` value.
pub fn activated_venv(virtual_env: &Option<String>) -> (r: Option<String>)
    ensures
        match virtual_env {
            Some(root) => r matches Some(p) && p@ == spec_venv_executable_path(root@),
            None => r is None,
        },
{
    match virtual_env {
        Some(venv_root) => Some(venv_executable_path(venv_root.as_str())),
        None => None,
    }
}

/// The virtual environment executable to use, if any: an activated
/// environment wins over a `.venv` directory.
pub fn venv_executable(facts: &EnvironmentFacts) -> (r: Option<String>)
    ensures
        match spec_venv_executable(*facts) {
            Some(p) => r matches Some(q) && q@ == p,
            None => r is None,
        },
{
    match activated_venv(&facts.virtual_env) {
        Some(p) => Some(p),
        None => match &facts.dir_venv_python {
            Some(p) => Some(p.clone()),
            None => None,
        },
    }
}

/// The characters of `#!`, the shebang marker.
pub open spec fn shebang_marker() -> Seq<char> {
    seq!['#', '!']
}

/// The characters of `/usr/bin/python`.
pub open spec fn usr_bin_python() -> Seq<char> {
    seq!['/', 'u', 's', 'r', '/', 'b', 'i', 'n', '/', 'p', 'y', 't', 'h', 'o', 'n']
}

/// The characters of `/usr/local/bin/python`.
pub open spec fn usr_local_bin_python() -> Seq<char> {
    seq![
        '/',
        'u',
        's',
        'r',
        '/',
        'l',
        'o',
        'c',
        'a',
        'l',
        '/',
        'b',
        'i',
        'n',
        '/',
        'p',
        'y',
        't',
        'h',
        'o',
        'n',
    ]
}

/// The characters of `/usr/bin/env python`.
pub open spec fn usr_bin_env_python() -> Seq<char> {
    seq![
        '/',
        'u',
        's',
        'r',
        '/',
        'b',
        'i',
        'n',
        '/',
        'e',
        'n',
        'v',
        ' ',
        'p',
        'y',
        't',
        'h',
        'o',
        'n',
    ]
}

/// The version a shebang line asks for, with its trailing arguments:
/// the line must begin with `#!`; the rest, after trimming whitespace,
/// must begin with one of the whitelisted interpreter forms; the first
/// word's text after that form must parse as a version request (empty
/// meaning `Any`); the words after the first are the shebang's own
/// arguments, to be prepended to the forwarded argument list.
pub open spec fn spec_parse_shebang(line: Seq<char>) -> Option<
    (RequestedVersion, Seq<Seq<char>>),
> {
    if !spec_starts_with(line, shebang_marker()) {
        None
    } else {
        let body = spec_trim(line.skip(2));
        if spec_starts_with(body, python_prefix()) {
            spec_shebang_suffix(body.skip(6))
        } else if spec_starts_with(body, usr_bin_python()) {
            spec_shebang_suffix(body.skip(15))
        } else if spec_starts_with(body, usr_local_bin_python()) {
            spec_shebang_suffix(body.skip(21))
        } else if spec_starts_with(body, usr_bin_env_python()) {
            spec_shebang_suffix(body.skip(19))
        } else {
            None
        }
    }
}

/// The version and arguments in the text after a recognized interpreter
/// form: the rest of the first word names the version, the later words
/// are arguments.
pub open spec fn spec_shebang_suffix(tail: Seq<char>) -> Option<
    (RequestedVersion, Seq<Seq<char>>),
> {
    let wl = crate::text::spec_word_len(tail);
    match spec_requested_ok(tail.take(wl)) {
        Some(v) => Some((v, crate::text::spec_words(tail.skip(wl)))),
        None => None,
    }
}

/// Parse the first line of a file as a Python shebang, returning the
/// version it requests and its trailing arguments when it names one of
/// the recognized interpreter invocation forms.
pub fn parse_python_shebang(first_line: &str) -> (r: Option<(RequestedVersion, Vec<String>)>)
    ensures
        match spec_parse_shebang(first_line@) {
            Some((v, sargs)) => r matches Some(pair) && pair.0 == v && pair.1.deep_view()
                == sargs,
            None => r is None,
        },
{
    proof {
        reveal_strlit("#!");
        reveal_strlit("python");
        reveal_strlit("/usr/bin/python");
        reveal_strlit("/usr/local/bin/python");
        reveal_strlit("/usr/bin/env python");
        assert("#!"@ =~= shebang_marker());
        assert("python"@ =~= python_prefix());
        assert("/usr/bin/python"@ =~= usr_bin_python());
        assert("/usr/local/bin/python"@ =~= usr_local_bin_python());
        assert("/usr/bin/env python"@ =~= usr_bin_env_python());
    }
    if !str_starts_with(first_line, "#!") {
        return None;
    }
    let len = first_line.unicode_len();
    let rest = first_line.substring_char(2, len);
    proof {
        assert(rest@ =~= first_line@.skip(2));
    }
    let trimmed = trim(rest);
    let body = trimmed.as_str();
    let body_len = body.unicode_len();
    if str_starts_with(body, "python") {
        version_of_suffix(body, 6, body_len)
    } else if str_starts_with(body, "/usr/bin/python") {
        version_of_suffix(body, 15, body_len)
    } else if str_starts_with(body, "/usr/local/bin/python") {
        version_of_suffix(body, 21, body_len)
    } else if str_starts_with(body, "/usr/bin/env python") {
        version_of_suffix(body, 19, body_len)
    } else {
        None
    }
}

/// The version request and arguments in `body` after a recognized
/// prefix of `from` characters, when the version parses.
fn version_of_suffix(body: &str, from: usize, len: usize) -> (r: Option<
    (RequestedVersion, Vec<String>),
>)
    requires
        from <= len,
        len == body@.len(),
    ensures
        match spec_shebang_suffix(body@.skip(from as int)) {
            Some((v, sargs)) => r matches Some(pair) && pair.0 == v && pair.1.deep_view()
                == sargs,
            None => r is None,
        },
{
    let tail = body.substring_char(from, len);
    proof {
        assert(tail@ =~= body@.skip(from as int));
    }
    let tail_len = tail.unicode_len();
    let word_len = crate::text::first_word_len(tail);
    let version_part = tail.substring_char(0, word_len);
    proof {
        assert(version_part@ =~= tail@.take(crate::text::spec_word_len(tail@)));
    }
    match RequestedVersion::from_str(version_part) {
        Ok(v) => {
            let args_part = tail.substring_char(word_len, tail_len);
            proof {
                assert(args_part@ =~= tail@.skip(crate::text::spec_word_len(tail@)));
            }
            Some((v, crate::text::split_words(args_part)))
        },
        Err(_) => None,
    }
}

/// The version a CLI flag asks for: a `-` followed by text that parses
/// as a version request. Anything else is not a version flag.
pub open spec fn spec_version_flag(arg: Seq<char>) -> Option<RequestedVersion> {
    if arg.len() == 0 || arg[0] != '-' {
        None
    } else {
        spec_requested_ok(arg.skip(1))
    }
}

/// Attempts to find a version specifier from a CLI argument.
///
/// It is assumed that the flag from the command-line is passed as-is
/// (i.e. the flag starts with `-`).
pub fn version_from_flag(arg: &str) -> (r: Option<RequestedVersion>)
    ensures
        r == spec_version_flag(arg@),
{
    let len = arg.unicode_len();
    if len == 0 || arg.get_char(0) != '-' {
        None
    } else {
        let rest = arg.substring_char(1, len);
        proof {
            assert(rest@ =~= arg@.skip(1));
        }
        match RequestedVersion::from_str(rest) {
            Ok(v) => Some(v),
            Err(_) => None,
        }
    }
}

/// The name-value view of the sampled environment variables.
pub open spec fn pairs_view(v: Seq<(String, String)>) -> Seq<(Seq<char>, Seq<char>)> {
    v.map_values(|p: (String, String)| (p.0@, p.1@))
}

/// The value of the first pair whose name is `name`, if any.
pub open spec fn spec_lookup(vars: Seq<(Seq<char>, Seq<char>)>, name: Seq<char>) -> Option<
    Seq<char>,
>
    decreases vars.len(),
{
    if vars.len() == 0 {
        None
    } else if vars[0].0 == name {
        Some(vars[0].1)
    } else {
        spec_lookup(vars.drop_first(), name)
    }
}

fn lookup_env(env_vars: &Vec<(String, String)>, name: &String) -> (r: Option<String>)
    ensures
        match spec_lookup(pairs_view(env_vars@), name@) {
            Some(val) => r matches Some(v) && v@ == val,
            None => r is None,
        },
{
    let ghost vars = pairs_view(env_vars@);
    let mut i: usize = 0;
    proof {
        assert(vars.skip(0) =~= vars);
    }
    while i < env_vars.len()
        invariant
            0 <= i <= env_vars@.len(),
            vars == pairs_view(env_vars@),
            spec_lookup(vars, name@) == spec_lookup(vars.skip(i as int), name@),
        decreases env_vars@.len() - i,
    {
        let pair = &env_vars[i];
        proof {
            assert(vars.skip(i as int)[0] == vars[i as int]);
            assert(vars.skip(i as int).drop_first() =~= vars.skip(i as int + 1));
        }
        if str_eq(pair.0.as_str(), name.as_str()) {
            return Some(pair.1.clone());
        }
        i += 1;
    }
    proof {
        assert(vars.skip(i as int) =~= Seq::<(Seq<char>, Seq<char>)>::empty());
    }
    None
}

/// The version request in force after the shebang step: when the
/// request is open and not from an explicit flag, no virtual
/// environment applies, and there is a first argument whose first line
/// carries a recognized shebang, that shebang's request replaces the
/// open one. An explicit flag skips the step entirely, whatever version
/// it names.
pub open spec fn spec_requested_after_shebang(
    version: RequestedVersion,
    explicit: bool,
    args_len: int,
    facts: EnvironmentFacts,
) -> RequestedVersion {
    if !explicit && version == RequestedVersion::Any && spec_venv_executable(facts) is None
        && args_len > 0 {
        match facts.first_line {
            Some(line) => match spec_parse_shebang(line@) {
                Some((v, _)) => v,
                None => version,
            },
            None => version,
        }
    } else {
        version
    }
}

/// The request after the environment-variable override: when the request
/// exposes an override variable that is set to a non-empty value, the
/// value must itself parse as a version request and replaces the
/// request; a set but unparseable value is a hard failure, which `None`
/// reports.
pub open spec fn spec_override_result(
    version: RequestedVersion,
    env: Seq<(Seq<char>, Seq<char>)>,
) -> Option<RequestedVersion> {
    match spec_env_var_name(version) {
        None => Some(version),
        Some(name) => match spec_lookup(env, name) {
            None => Some(version),
            Some(val) => if val.len() == 0 {
                Some(version)
            } else {
                match spec_requested_ok(val) {
                    Some(v) => Some(v),
                    None => None,
                }
            },
        },
    }
}

/// What the resolution pipeline returns for a version request, the
/// number of forwarded arguments, and an environment snapshot. An open
/// request that did not come from an explicit flag first takes any
/// virtual environment; an explicit flag skips the virtual environments
/// and the shebang entirely, whatever version it names. Then the
/// shebang and override steps refine the request and the `PATH` scan
/// decides: the newest recorded match wins, an unparseable override
/// value is a component error, and an empty scan is a
/// no-executable-found error carrying the final request.
pub open spec fn spec_resolution(
    version: RequestedVersion,
    explicit: bool,
    args_len: int,
    facts: EnvironmentFacts,
    r: Result<String, Error>,
) -> bool {
    let venv = if !explicit && version == RequestedVersion::Any {
        spec_venv_executable(facts)
    } else {
        Option::<Seq<char>>::None
    };
    let rv1 = spec_requested_after_shebang(version, explicit, args_len, facts);
    match venv {
        Some(p) => r matches Ok(q) && q@ == p,
        None => match spec_override_result(rv1, pairs_view(facts.env_vars@)) {
            None => {
                let name = spec_env_var_name(rv1)->Some_0;
                let val = spec_lookup(pairs_view(facts.env_vars@), name)->Some_0;
                r matches Err(e) && e matches Error::ParseVersionComponentError(t) && Some(t@)
                    == spec_component_err(val)
            },
            Some(rv2) => {
                let t = spec_scan(
                    rv2,
                    spec_dir_entries(facts.dirs.deep_view()),
                    file_set(facts.files.deep_view()),
                    Seq::empty(),
                ).0;
                if t.len() == 0 {
                    r == Err::<String, Error>(Error::NoExecutableFound(rv2))
                } else {
                    r matches Ok(p) && exists|i: int|
                        0 <= i < t.len() && #[trigger] t[i].1 == p@ && forall|j: int|
                            0 <= j < t.len() ==> version_le(t[j].0, t[i].0)
                }
            },
        },
    }
}

/// The characters of the short help flag.
pub open spec fn dash_h() -> Seq<char> {
    seq!['-', 'h']
}

/// The characters of the long help flag.
pub open spec fn help_flag() -> Seq<char> {
    seq!['-', '-', 'h', 'e', 'l', 'p']
}

/// The characters of the list flag.
pub open spec fn list_flag() -> Seq<char> {
    seq!['-', '-', 'l', 'i', 's', 't']
}

/// Whether an argument asks for help.
pub open spec fn spec_is_help(arg: Seq<char>) -> bool {
    arg == dash_h() || arg == help_flag()
}

/// The contents of all the directory listings, joined in order.
pub open spec fn spec_flatten(dirs: Seq<Seq<Seq<char>>>) -> Seq<Seq<char>>
    decreases dirs.len(),
{
    if dirs.len() == 0 {
        Seq::empty()
    } else {
        spec_flatten(dirs.drop_last()) + dirs.last()
    }
}

/// Join the directory listings into one path list, in search order.
fn flatten_dirs(dirs: &Vec<Vec<String>>) -> (r: Vec<String>)
    ensures
        r.deep_view() == spec_flatten(dirs.deep_view()),
{
    let mut paths: Vec<String> = Vec::new();
    let mut d: usize = 0;
    proof {
        assert(dirs.deep_view().take(0) =~= Seq::<Seq<Seq<char>>>::empty());
        assert(paths.deep_view() =~= spec_flatten(dirs.deep_view().take(0)));
    }
    while d < dirs.len()
        invariant
            0 <= d <= dirs@.len(),
            paths.deep_view() == spec_flatten(dirs.deep_view().take(d as int)),
        decreases dirs@.len() - d,
    {
        let dir = &dirs[d];
        let mut k: usize = 0;
        while k < dir.len()
            invariant
                0 <= k <= dir@.len(),
                dir@ == dirs@[d as int]@,
                0 <= d < dirs@.len(),
                paths.deep_view() == spec_flatten(dirs.deep_view().take(d as int))
                    + dir.deep_view().take(k as int),
            decreases dir@.len() - k,
        {
            let ghost old_view = paths.deep_view();
            paths.push(dir[k].clone());
            proof {
                assert(paths.deep_view() =~= old_view.push(dir@[k as int]@));
                assert(dir.deep_view().take(k as int + 1) =~= dir.deep_view().take(k as int).push(
                    dir@[k as int]@,
                ));
                assert(paths.deep_view() =~= spec_flatten(dirs.deep_view().take(d as int))
                    + dir.deep_view().take(k as int + 1));
            }
            k += 1;
        }
        proof {
            assert(dir.deep_view().take(dir@.len() as int) =~= dir.deep_view());
            assert(dir.deep_view() == dirs.deep_view()[d as int]);
            assert(dirs.deep_view().take(d as int + 1).drop_last() =~= dirs.deep_view().take(
                d as int,
            ));
            assert(dirs.deep_view().take(d as int + 1).last() == dirs.deep_view()[d as int]);
        }
        d += 1;
    }
    proof {
        assert(dirs.deep_view().take(dirs@.len() as int) =~= dirs.deep_view());
    }
    paths
}

/// Copy the arguments from position `from` on.
fn argv_tail(argv: &Vec<String>, from: usize) -> (r: Vec<String>)
    requires
        from <= argv@.len(),
    ensures
        r@.len() == argv@.len() - from,
        forall|i: int| 0 <= i < r@.len() ==> r@[i] == argv@[i + from],
        r.deep_view() == argv.deep_view().skip(from as int),
{
    let mut args: Vec<String> = Vec::new();
    let mut i: usize = from;
    while i < argv.len()
        invariant
            from <= i <= argv@.len(),
            args@.len() == i - from,
            forall|j: int| 0 <= j < args@.len() ==> args@[j] == argv@[j + from],
        decreases argv@.len() - i,
    {
        args.push(argv[i].clone());
        i += 1;
    }
    proof {
        assert(args.deep_view() =~= argv.deep_view().skip(from as int));
    }
    args
}

/// The argument whose file the shebang step may read: the first
/// forwarded argument of an unflagged invocation. Help, listing and
/// every version-flag invocation read no shebang at all.
pub open spec fn spec_shebang_candidate(argv: Seq<Seq<char>>) -> Option<Seq<char>> {
    if argv.len() <= 1 {
        None
    } else if spec_is_help(argv[1]) || argv[1] == list_flag() {
        None
    } else if spec_version_flag(argv[1]) is Some {
        None
    } else {
        Some(argv[1])
    }
}

/// Returns the argument naming the file whose first line the shebang
/// step of [`Action::from_main`] would read, so a caller can sample that
/// line into [`EnvironmentFacts`].
pub fn shebang_candidate(argv: &Vec<String>) -> (r: Option<String>)
    ensures
        match spec_shebang_candidate(argv.deep_view()) {
            Some(p) => r matches Some(q) && q@ == p,
            None => r is None,
        },
{
    proof {
        reveal_strlit("-h");
        reveal_strlit("--help");
        reveal_strlit("--list");
        assert("-h"@ =~= dash_h());
        assert("--help"@ =~= help_flag());
        assert("--list"@ =~= list_flag());
    }
    if argv.len() <= 1 {
        return None;
    }
    let arg = &argv[1];
    proof {
        assert(argv.deep_view()[1] == arg@);
    }
    if str_eq(arg.as_str(), "-h") || str_eq(arg.as_str(), "--help") || str_eq(
        arg.as_str(),
        "--list",
    ) {
        None
    } else if version_from_flag(arg.as_str()).is_some() {
        None
    } else {
        Some(arg.clone())
    }
}

impl Action {
    /// Parses `argv` to determine what action should be taken, deciding
    /// from the given environment snapshot: help and listing defer to
    /// the discovered executable table; a version flag fixes the
    /// request; anything else resolves an open request, forwarding the
    /// remaining arguments.
    pub fn from_main(argv: &Vec<String>, facts: &EnvironmentFacts) -> (r: Result<Action, Error>)
        requires
            argv@.len() >= 1,
        ensures
            ({
                let argvv = argv.deep_view();
                let ft = spec_filter(spec_flatten(facts.dirs.deep_view()), Seq::empty());
                &&& (argvv.len() >= 2 && spec_is_help(argvv[1])) ==> {
                    &&& ft.len() == 0 ==> r == Err::<Action, Error>(
                        Error::NoExecutableFound(RequestedVersion::Any),
                    )
                    &&& ft.len() > 0 ==> (r matches Ok(a) && a matches Action::Help(p)
                        && exists|i: int|
                        0 <= i < ft.len() && #[trigger] ft[i].1 == p@ && forall|j: int|
                            0 <= j < ft.len() ==> version_le(ft[j].0, ft[i].0))
                }
                &&& (argvv.len() >= 2 && !spec_is_help(argvv[1]) && argvv[1] == list_flag())
                    ==> {
                    &&& ft.len() == 0 ==> r == Err::<Action, Error>(
                        Error::NoExecutableFound(RequestedVersion::Any),
                    )
                    &&& ft.len() > 0 ==> r == Ok::<Action, Error>(Action::List)
                }
                &&& (argvv.len() >= 2 && !spec_is_help(argvv[1]) && argvv[1] != list_flag()
                    && spec_version_flag(argvv[1]) is Some) ==> {
                    let v = spec_version_flag(argvv[1])->Some_0;
                    &&& r matches Ok(a) ==> (a matches Action::Execute {
                        launcher_path: lp,
                        executable: e,
                        args: aa,
                    } && lp@ == argvv[0] && aa.deep_view() == argvv.skip(2) && spec_resolution(
                        v,
                        true,
                        argvv.len() - 2,
                        *facts,
                        Ok(e),
                    ))
                    &&& r matches Err(err) ==> spec_resolution(
                        v,
                        true,
                        argvv.len() - 2,
                        *facts,
                        Err(err),
                    )
                }
                &&& (argvv.len() == 1 || (argvv.len() >= 2 && !spec_is_help(argvv[1]) && argvv[1]
                    != list_flag() && spec_version_flag(argvv[1]) is None)) ==> {
                    &&& r matches Ok(a) ==> (a matches Action::Execute {
                        launcher_path: lp,
                        executable: e,
                        args: aa,
                    } && lp@ == argvv[0] && aa.deep_view() == spec_forwarded_args(
                        argvv.skip(1),
                        *facts,
                    ) && spec_resolution(
                        RequestedVersion::Any,
                        false,
                        argvv.len() - 1,
                        *facts,
                        Ok(e),
                    ))
                    &&& r matches Err(err) ==> spec_resolution(
                        RequestedVersion::Any,
                        false,
                        argvv.len() - 1,
                        *facts,
                        Err(err),
                    )
                }
            }),
    {
        proof {
            reveal_strlit("-h");
            reveal_strlit("--help");
            reveal_strlit("--list");
            assert("-h"@ =~= dash_h());
            assert("--help"@ =~= help_flag());
            assert("--list"@ =~= list_flag());
        }
        let launcher_path = argv[0].clone();
        proof {
            assert(argv.deep_view()[0] == launcher_path@);
        }
        if argv.len() >= 2 {
            let arg = &argv[1];
            proof {
                assert(argv.deep_view()[1] == arg@);
            }
            if str_eq(arg.as_str(), "-h") || str_eq(arg.as_str(), "--help") {
                let paths = flatten_dirs(&facts.dirs);
                let ghost ft = spec_filter(spec_flatten(facts.dirs.deep_view()), Seq::empty());
                proof {
                    assert(forall|j: int|
                        0 <= j < ft.len() ==> crate::version::spec_supports(
                            #[trigger] ft[j].0,
                            RequestedVersion::Any,
                        ));
                }
                match crate::path::find_executable(RequestedVersion::Any, &paths) {
                    Some(executable_path) => Ok(Action::Help(executable_path)),
                    None => {
                        proof {
                            if ft.len() > 0 {
                                assert(0 <= 0 < ft.len() && crate::version::spec_supports(
                                    ft[0].0,
                                    RequestedVersion::Any,
                                ));
                            }
                        }
                        Err(Error::NoExecutableFound(RequestedVersion::Any))
                    },
                }
            } else if str_eq(arg.as_str(), "--list") {
                let paths = flatten_dirs(&facts.dirs);
                let executables = all_executables(&paths);
                proof {
                    assert(table_view(executables@).len() == executables@.len());
                }
                if executables.len() == 0 {
                    Err(Error::NoExecutableFound(RequestedVersion::Any))
                } else {
                    Ok(Action::List)
                }
            } else {
                match version_from_flag(arg.as_str()) {
                    Some(version) => {
                        let args = argv_tail(argv, 2);
                        match find_executable(version, true, &args, facts) {
                            Ok(executable) => Ok(
                                Action::Execute { launcher_path, executable, args },
                            ),
                            Err(e) => Err(e),
                        }
                    },
                    None => {
                        let args = argv_tail(argv, 1);
                        match find_executable(RequestedVersion::Any, false, &args, facts) {
                            Ok(executable) => {
                                let forwarded = forwarded_args(&args, facts);
                                Ok(
                                    Action::Execute {
                                        launcher_path,
                                        executable,
                                        args: forwarded,
                                    },
                                )
                            },
                            Err(e) => Err(e),
                        }
                    },
                }
            }
        } else {
            let args = argv_tail(argv, 1);
            match find_executable(RequestedVersion::Any, false, &args, facts) {
                Ok(executable) => {
                    let forwarded = forwarded_args(&args, facts);
                    Ok(Action::Execute { launcher_path, executable, args: forwarded })
                },
                Err(e) => Err(e),
            }
        }
    }
}

/// Resolve one invocation: consult the virtual environments, the shebang
/// of the first argument, the `PY_PYTHON` override variables and finally
/// a scan of `PATH`, in that order, for the executable to run. When
/// `explicit` is set the request came from a command-line flag, and the
/// virtual environments and the shebang are skipped entirely, whatever
/// version the flag names.
pub fn find_executable(
    version: RequestedVersion,
    explicit: bool,
    args: &Vec<String>,
    facts: &EnvironmentFacts,
) -> (r: Result<String, Error>)
    ensures
        spec_resolution(version, explicit, args@.len() as int, *facts, r),
{
    let mut requested = version;
    let mut chosen_path: Option<String> = None;

    if !explicit && requested == RequestedVersion::Any {
        match venv_executable(facts) {
            Some(venv_path) => {
                chosen_path = Some(venv_path);
            },
            None => {
                if args.len() > 0 {
                    match &facts.first_line {
                        Some(line) => {
                            match parse_python_shebang(line.as_str()) {
                                Some(shebang) => {
                                    requested = shebang.0;
                                },
                                None => {},
                            }
                        },
                        None => {},
                    }
                }
            },
        }
    }

    match chosen_path {
        Some(p) => Ok(p),
        None => {
            match requested.env_var() {
                Some(env_var) => {
                    match lookup_env(&facts.env_vars, &env_var) {
                        Some(env_var_value) => {
                            if env_var_value.as_str().unicode_len() > 0 {
                                match RequestedVersion::from_str(env_var_value.as_str()) {
                                    Ok(env_requested_version) => {
                                        requested = env_requested_version;
                                    },
                                    Err(e) => {
                                        return Err(e);
                                    },
                                }
                            }
                        },
                        None => {},
                    }
                },
                None => {},
            }
            let found = available_executables(requested, &facts.dirs, &facts.files);
            match choose_executable(&found) {
                Some(executable_path) => Ok(executable_path),
                None => Err(Error::NoExecutableFound(requested)),
            }
        },
    }
}

/// The arguments to hand the interpreter for an open, unflagged
/// request: when the shebang step applies and its line parses, the
/// shebang's own arguments come first, then the original ones;
/// otherwise the original arguments, unchanged.
pub open spec fn spec_forwarded_args(args: Seq<Seq<char>>, facts: EnvironmentFacts) -> Seq<
    Seq<char>,
> {
    if spec_venv_executable(facts) is None && args.len() > 0 {
        match facts.first_line {
            Some(line) => match spec_parse_shebang(line@) {
                Some((_, sargs)) => sargs + args,
                None => args,
            },
            None => args,
        }
    } else {
        args
    }
}

/// Prepend the shebang's arguments, when the shebang step applies, to
/// the forwarded argument list.
fn forwarded_args(args: &Vec<String>, facts: &EnvironmentFacts) -> (r: Vec<String>)
    ensures
        r.deep_view() == spec_forwarded_args(args.deep_view(), *facts),
{
    match venv_executable(facts) {
        Some(_) => copy_args(args),
        None => {
            if args.len() > 0 {
                match &facts.first_line {
                    Some(line) => match parse_python_shebang(line.as_str()) {
                        Some(shebang) => {
                            let mut out = shebang.1;
                            let ghost sargs = out.deep_view();
                            let mut i: usize = 0;
                            proof {
                                assert(args.deep_view().take(0) =~= Seq::<Seq<char>>::empty());
                                assert(out.deep_view() =~= sargs + args.deep_view().take(0));
                            }
                            while i < args.len()
                                invariant
                                    0 <= i <= args@.len(),
                                    out.deep_view() == sargs + args.deep_view().take(i as int),
                                decreases args@.len() - i,
                            {
                                let ghost old_view = out.deep_view();
                                out.push(args[i].clone());
                                proof {
                                    assert(out.deep_view() =~= old_view.push(args@[i as int]@));
                                    assert(args.deep_view().take(i as int + 1) =~= args.deep_view()
                                        .take(i as int).push(args@[i as int]@));
                                    assert(out.deep_view() =~= sargs + args.deep_view().take(
                                        i as int + 1,
                                    ));
                                }
                                i += 1;
                            }
                            proof {
                                assert(args.deep_view().take(args@.len() as int)
                                    =~= args.deep_view());
                            }
                            out
                        },
                        None => copy_args(args),
                    },
                    None => copy_args(args),
                }
            } else {
                copy_args(args)
            }
        },
    }
}

fn copy_args(args: &Vec<String>) -> (r: Vec<String>)
    ensures
        r.deep_view() == args.deep_view(),
{
    let r = argv_tail(args, 0);
    proof {
        assert(args.deep_view().skip(0) =~= args.deep_view());
    }
    r
}

} // verus!
