//! The version model: requested versions, discovered `major.minor`
//! versions, and how well a discovered version matches a request.

use vstd::prelude::*;

use crate::error::Error;
use crate::text::{
    digits_val, find_char, parse_u16, spec_digits, spec_find, spec_starts_with, str_eq,
    str_starts_with, u16_to_string, valid_component,
};

verus! {

/// The version of Python being searched for.
#[derive(Clone, Copy, Debug, Eq, PartialEq, Hash, Structural)]
pub enum RequestedVersion {
    /// Any version is acceptable.
    Any,
    /// A specific major version (e.g. `3.x`).
    MajorOnly(u16),
    /// The specific `major.minor` version (e.g. `3.9`).
    Exact(u16, u16),
}

/// Specifies the `major.minor` version of a Python executable.
#[derive(Clone, Copy, Debug, Eq, PartialEq, Hash, Ord, PartialOrd, Structural)]
pub struct ExactVersion {
    pub major: u16,
    pub minor: u16,
}

/// How tight of a match an [`ExactVersion`] is to a [`RequestedVersion`].
#[derive(Clone, Copy, Debug, Eq, PartialEq, Structural)]
pub enum Match {
    /// Not compatible.
    No,
    /// Compatible, but a better, newer match may still appear.
    Somewhat,
    /// Matches a `major.minor` request exactly.
    Yes,
}

/// Numeric ordering of versions: by major, then by minor.
pub open spec fn version_lt(a: ExactVersion, b: ExactVersion) -> bool {
    a.major < b.major || (a.major == b.major && a.minor < b.minor)
}

/// Numeric order, permitting equality.
pub open spec fn version_le(a: ExactVersion, b: ExactVersion) -> bool {
    version_lt(a, b) || a == b
}

/// Whether `candidate` satisfies `requested` at all.
pub open spec fn spec_supports(candidate: ExactVersion, requested: RequestedVersion) -> bool {
    match requested {
        RequestedVersion::Any => true,
        RequestedVersion::MajorOnly(major) => candidate.major == major,
        RequestedVersion::Exact(major, minor) => candidate.major == major && candidate.minor
            == minor,
    }
}

/// The three-way match classification of `candidate` against `requested`.
pub open spec fn spec_matches(candidate: ExactVersion, requested: RequestedVersion) -> Match {
    match requested {
        RequestedVersion::Any => Match::Somewhat,
        RequestedVersion::MajorOnly(major) => if candidate.major == major {
            Match::Somewhat
        } else {
            Match::No
        },
        RequestedVersion::Exact(major, minor) => if candidate.major == major && candidate.minor
            == minor {
            Match::Yes
        } else {
            Match::No
        },
    }
}

impl ExactVersion {
    /// Construct an instance of [`ExactVersion`].
    pub fn new(major: u16, minor: u16) -> (r: Self)
        ensures
            r == (ExactVersion { major, minor }),
    {
        ExactVersion { major, minor }
    }

    /// Tests whether this [`ExactVersion`] satisfies the [`RequestedVersion`].
    pub fn supports(&self, requested: RequestedVersion) -> (r: bool)
        ensures
            r == spec_supports(*self, requested),
    {
        match requested {
            RequestedVersion::Any => true,
            RequestedVersion::MajorOnly(major_version) => self.major == major_version,
            RequestedVersion::Exact(major_version, minor_version) => self.major == major_version
                && self.minor == minor_version,
        }
    }

    /// Sees how well of a match this Python version is for `requested`.
    pub fn matches(&self, requested: RequestedVersion) -> (r: Match)
        ensures
            r == spec_matches(*self, requested),
    {
        match requested {
            RequestedVersion::Any => Match::Somewhat,
            RequestedVersion::MajorOnly(major) => if self.major == major {
                Match::Somewhat
            } else {
                Match::No
            },
            RequestedVersion::Exact(major, minor) => if self.major == major && self.minor
                == minor {
                Match::Yes
            } else {
                Match::No
            },
        }
    }
}

impl From<ExactVersion> for RequestedVersion {
    fn from(version: ExactVersion) -> (r: Self) {
        RequestedVersion::Exact(version.major, version.minor)
    }
}

impl vstd::std_specs::convert::FromSpecImpl<ExactVersion> for RequestedVersion {
    open spec fn obeys_from_spec() -> bool {
        true
    }

    open spec fn from_spec(version: ExactVersion) -> Self {
        RequestedVersion::Exact(version.major, version.minor)
    }
}

/// The characters of the word `Python`, as rendered versions begin.
pub open spec fn python_word() -> Seq<char> {
    seq!['P', 'y', 't', 'h', 'o', 'n']
}

/// The characters of the executable-name prefix `python`.
pub open spec fn python_prefix() -> Seq<char> {
    seq!['p', 'y', 't', 'h', 'o', 'n']
}

/// The characters of the environment-variable prefix `PY_PYTHON`.
pub open spec fn py_python_word() -> Seq<char> {
    seq!['P', 'Y', '_', 'P', 'Y', 'T', 'H', 'O', 'N']
}

/// The version named by a `major.minor` string, when it parses: the text
/// up to the first `.` and the text after it must each be a non-empty
/// all-digit numeral whose value fits in sixteen bits.
pub open spec fn spec_exact_ok(s: Seq<char>) -> Option<ExactVersion> {
    match spec_find(s, '.') {
        None => None,
        Some(i) => {
            let maj = s.subrange(0, i);
            let min = s.subrange(i + 1, s.len() as int);
            if valid_component(maj) && valid_component(min) {
                Some(
                    ExactVersion {
                        major: digits_val(maj) as u16,
                        minor: digits_val(min) as u16,
                    },
                )
            } else {
                None
            }
        },
    }
}

/// The version request named by a string, when it parses: empty means
/// `Any`, a bare numeral names a major version, and `major.minor` pins
/// both components.
pub open spec fn spec_requested_ok(s: Seq<char>) -> Option<RequestedVersion> {
    if s.len() == 0 {
        Some(RequestedVersion::Any)
    } else if spec_find(s, '.') is Some {
        match spec_exact_ok(s) {
            Some(v) => Some(RequestedVersion::Exact(v.major, v.minor)),
            None => None,
        }
    } else if valid_component(s) {
        Some(RequestedVersion::MajorOnly(digits_val(s) as u16))
    } else {
        None
    }
}

/// The substring a failed version-request parse complains about: the
/// whole string when it has no `.`, otherwise the first component that is
/// not a valid numeral. `None` when the parse succeeds.
pub open spec fn spec_component_err(s: Seq<char>) -> Option<Seq<char>> {
    if s.len() == 0 {
        None
    } else {
        match spec_find(s, '.') {
            None => if valid_component(s) {
                None
            } else {
                Some(s)
            },
            Some(i) => {
                let maj = s.subrange(0, i);
                let min = s.subrange(i + 1, s.len() as int);
                if !valid_component(maj) {
                    Some(maj)
                } else if !valid_component(min) {
                    Some(min)
                } else {
                    None
                }
            },
        }
    }
}

/// What `ExactVersion::from_str` returns for the input `s`: the parsed
/// version, `DotMissing` without a `.`, or a component error carrying the
/// first component that does not parse.
pub open spec fn exact_from_str_spec(s: Seq<char>, r: Result<ExactVersion, Error>) -> bool {
    match spec_find(s, '.') {
        None => r == Err::<ExactVersion, Error>(Error::DotMissing),
        Some(i) => {
            let maj = s.subrange(0, i);
            let min = s.subrange(i + 1, s.len() as int);
            if !valid_component(maj) {
                r matches Err(e) && e matches Error::ParseVersionComponentError(t) && t@ == maj
            } else if !valid_component(min) {
                r matches Err(e) && e matches Error::ParseVersionComponentError(t) && t@ == min
            } else {
                r == Ok::<ExactVersion, Error>(
                    ExactVersion {
                        major: digits_val(maj) as u16,
                        minor: digits_val(min) as u16,
                    },
                )
            }
        },
    }
}

impl ExactVersion {
    /// Parse a `major.minor` string: split at the first `.`, then read
    /// each side as a decimal numeral.
    pub fn from_str(version_string: &str) -> (r: Result<Self, Error>)
        ensures
            exact_from_str_spec(version_string@, r),
            r matches Ok(v) ==> spec_exact_ok(version_string@) == Some(v),
            spec_exact_ok(version_string@) matches Some(w) ==> r == Ok::<ExactVersion, Error>(w),
    {
        let len = version_string.unicode_len();
        match find_char(version_string, '.') {
            Some(dot_index) => {
                proof {
                    crate::text::lemma_spec_find(version_string@, '.');
                }
                let major_str = version_string.substring_char(0, dot_index);
                let minor_str = version_string.substring_char(dot_index + 1, len);
                match parse_u16(major_str) {
                    Some(major) => match parse_u16(minor_str) {
                        Some(minor) => Ok(ExactVersion { major, minor }),
                        None => Err(Error::ParseVersionComponentError(minor_str.to_owned())),
                    },
                    None => Err(Error::ParseVersionComponentError(major_str.to_owned())),
                }
            },
            None => Err(Error::DotMissing),
        }
    }
}

impl RequestedVersion {
    /// Parse a version request: the empty string asks for any version, a
    /// bare numeral for a major version, and `major.minor` for an exact
    /// version. Anything else is a component error carrying the offending
    /// substring.
    pub fn from_str(version_string: &str) -> (r: Result<Self, Error>)
        ensures
            spec_requested_ok(version_string@) matches Some(v) ==> r == Ok::<
                RequestedVersion,
                Error,
            >(v),
            spec_requested_ok(version_string@) is None ==> (r matches Err(e) && e matches
                Error::ParseVersionComponentError(t) && Some(t@) == spec_component_err(
                version_string@,
            )),
    {
        if version_string.unicode_len() == 0 {
            Ok(RequestedVersion::Any)
        } else if find_char(version_string, '.').is_some() {
            proof {
                crate::text::lemma_spec_find(version_string@, '.');
            }
            match ExactVersion::from_str(version_string) {
                Ok(exact_version) => Ok(
                    RequestedVersion::Exact(exact_version.major, exact_version.minor),
                ),
                Err(e) => Err(e),
            }
        } else {
            match parse_u16(version_string) {
                Some(number) => Ok(RequestedVersion::MajorOnly(number)),
                None => Err(Error::ParseVersionComponentError(version_string.to_owned())),
            }
        }
    }
}

/// The rendering of an exact version: `major.minor` in canonical decimal.
pub open spec fn spec_render_exact(v: ExactVersion) -> Seq<char> {
    spec_digits(v.major as int) + seq!['.'] + spec_digits(v.minor as int)
}

/// The readable rendering of a version request: `Python`, `Python 3`, or
/// `Python 3.9`.
pub open spec fn spec_render_requested(v: RequestedVersion) -> Seq<char> {
    match v {
        RequestedVersion::Any => python_word(),
        RequestedVersion::MajorOnly(major) => python_word() + seq![' '] + spec_digits(major as int),
        RequestedVersion::Exact(major, minor) => python_word() + seq![' '] + spec_digits(
            major as int,
        ) + seq!['.'] + spec_digits(minor as int),
    }
}

/// The name of the environment variable that can override a version
/// request: `PY_PYTHON` for `Any`, `PY_PYTHON{major}` for a major-only
/// request, and none for an exact request, which leaves nothing to
/// disambiguate.
pub open spec fn spec_env_var_name(v: RequestedVersion) -> Option<Seq<char>> {
    match v {
        RequestedVersion::Any => Some(py_python_word()),
        RequestedVersion::MajorOnly(major) => Some(py_python_word() + spec_digits(major as int)),
        RequestedVersion::Exact(_, _) => None,
    }
}

impl RequestedVersion {
    /// Returns the string naming the environment variable for the
    /// requested version, if one exists.
    pub fn env_var(self) -> (r: Option<String>)
        ensures
            match spec_env_var_name(self) {
                Some(n) => r matches Some(t) && t@ == n,
                None => r is None,
            },
    {
        proof {
            reveal_strlit("PY_PYTHON");
            assert("PY_PYTHON"@ =~= py_python_word());
        }
        match self {
            Self::Any => Some(String::from_str("PY_PYTHON")),
            Self::MajorOnly(major) => {
                let digits = u16_to_string(major);
                Some(String::from_str("PY_PYTHON").concat(digits.as_str()))
            },
            _ => None,
        }
    }

    /// Format to a readable name of the Python version requested, e.g.
    /// `Python 3.9`.
    pub fn to_string(&self) -> (r: String)
        ensures
            r@ == spec_render_requested(*self),
    {
        proof {
            reveal_strlit("Python");
            reveal_strlit("Python ");
            reveal_strlit(".");
            assert("Python"@ =~= python_word());
            assert("Python "@ =~= python_word() + seq![' ']);
            assert("."@ =~= seq!['.']);
        }
        match self {
            Self::Any => String::from_str("Python"),
            Self::MajorOnly(major) => {
                let digits = u16_to_string(*major);
                String::from_str("Python ").concat(digits.as_str())
            },
            Self::Exact(major, minor) => {
                let major_digits = u16_to_string(*major);
                let minor_digits = u16_to_string(*minor);
                String::from_str("Python ").concat(major_digits.as_str()).concat(".").concat(
                    minor_digits.as_str(),
                )
            },
        }
    }
}

impl ExactVersion {
    /// Format to the version specifier, e.g. `3.9`.
    pub fn to_string(&self) -> (r: String)
        ensures
            r@ == spec_render_exact(*self),
    {
        proof {
            reveal_strlit(".");
            assert("."@ =~= seq!['.']);
        }
        let major_digits = u16_to_string(self.major);
        let minor_digits = u16_to_string(self.minor);
        major_digits.concat(".").concat(minor_digits.as_str())
    }
}

/// The longest suffix of `p` that contains no `/`.
pub open spec fn spec_after_last_slash(p: Seq<char>) -> Seq<char>
    decreases p.len(),
{
    if p.len() == 0 {
        p
    } else if p.last() == '/' {
        Seq::empty()
    } else {
        spec_after_last_slash(p.drop_last()).push(p.last())
    }
}

/// The last component of a path, ignoring trailing `/` separators and
/// trailing `.` components, as `Path` resolves its final component.
pub open spec fn spec_last_component(p: Seq<char>) -> Option<Seq<char>>
    decreases p.len(),
{
    if p.len() == 0 {
        None
    } else if p.last() == '/' {
        spec_last_component(p.drop_last())
    } else if spec_after_last_slash(p) == seq!['.'] {
        spec_last_component(p.drop_last())
    } else {
        Some(spec_after_last_slash(p))
    }
}

/// The file name of a path: its last component, ignoring trailing `/`
/// and `.` parts. A path that is empty, all separators, or ends in a
/// `..` component has no file name.
pub open spec fn spec_file_name(p: Seq<char>) -> Option<Seq<char>> {
    match spec_last_component(p) {
        Some(c) => if c == seq!['.', '.'] {
            None
        } else {
            Some(c)
        },
        None => None,
    }
}

/// A file name that can name a Python executable: at least as long as
/// `python3.0` and starting with `python`.
pub open spec fn spec_acceptable_file_name(name: Seq<char>) -> bool {
    name.len() >= 9 && spec_starts_with(name, python_prefix())
}

/// The version a path names, when its file name has the `pythonX.Y`
/// shape; `None` for every other path.
pub open spec fn spec_version_of_path(p: Seq<char>) -> Option<ExactVersion> {
    match spec_file_name(p) {
        Some(name) => if spec_acceptable_file_name(name) {
            spec_exact_ok(name.skip(6))
        } else {
            None
        },
        None => None,
    }
}

/// A run of non-`/` characters at the end of a path is its suffix after
/// the last slash.
proof fn lemma_after_last_slash_skip(p: Seq<char>, i: int)
    requires
        0 <= i <= p.len(),
        forall|j: int| i <= j < p.len() ==> p[j] != '/',
        i == 0 || p[i - 1] == '/',
    ensures
        spec_after_last_slash(p) == p.skip(i),
    decreases p.len() - i,
{
    if i == p.len() {
        if p.len() == 0 {
            assert(p.skip(i) =~= p);
        } else {
            assert(p.last() == '/');
            assert(p.skip(i) =~= Seq::<char>::empty());
        }
    } else {
        if i == p.len() - 1 {
            assert(p.drop_last() =~= p.take(p.len() - 1));
            lemma_after_last_slash_end(p.drop_last(), i);
            assert(p.skip(i) =~= spec_after_last_slash(p.drop_last()).push(p.last()));
        } else {
            lemma_after_last_slash_skip(p.drop_last(), i);
            assert(p.drop_last().skip(i).push(p.last()) =~= p.skip(i));
        }
    }
}

/// Helper for the base case: a path that is empty or ends in `/` has an
/// empty suffix after the last slash.
proof fn lemma_after_last_slash_end(p: Seq<char>, i: int)
    requires
        i == p.len(),
        i == 0 || p[i - 1] == '/',
    ensures
        spec_after_last_slash(p) == Seq::<char>::empty(),
{
    if p.len() == 0 {
        assert(spec_after_last_slash(p) =~= Seq::<char>::empty());
    } else {
        assert(p.last() == '/');
    }
}

impl ExactVersion {
    /// Constructs an [`ExactVersion`] from a `pythonX.Y` file path. The
    /// file name of a path is its last component, ignoring trailing `/`
    /// separators and trailing `.` parts; a path without one, or ending
    /// in a `..` component, has no file name.
    pub fn from_path(path: &str) -> (r: Result<Self, Error>)
        ensures
            spec_file_name(path@) is None ==> r == Err::<ExactVersion, Error>(
                Error::FileNameMissing,
            ),
            spec_file_name(path@) matches Some(name) ==> {
                if spec_acceptable_file_name(name) {
                    exact_from_str_spec(name.skip(6), r)
                } else {
                    r == Err::<ExactVersion, Error>(Error::PathFileNameError)
                }
            },
            match spec_version_of_path(path@) {
                Some(v) => r == Ok::<ExactVersion, Error>(v),
                None => r is Err,
            },
    {
        let len = path.unicode_len();
        let mut end: usize = len;
        proof {
            assert(path@.take(len as int) =~= path@);
        }
        while end > 0 && (path.get_char(end - 1) == '/' || (path.get_char(end - 1) == '.' && (end
            == 1 || path.get_char(end - 2) == '/')))
            invariant
                0 <= end <= len,
                len == path@.len(),
                spec_last_component(path@) == spec_last_component(path@.take(end as int)),
            decreases end,
        {
            proof {
                let q = path@.take(end as int);
                assert(q.last() == path@[end - 1]);
                assert(q.drop_last() =~= path@.take(end as int - 1));
                if path@[end - 1] != '/' {
                    assert(path@[end - 1] == '.' && (end == 1 || path@[end as int - 2] == '/'));
                    assert(q.last() == '.');
                    assert(spec_after_last_slash(q) == spec_after_last_slash(q.drop_last()).push(
                        q.last(),
                    ));
                    if end == 1 {
                        assert(q.drop_last() =~= Seq::<char>::empty());
                        assert(spec_after_last_slash(q.drop_last()) =~= Seq::<char>::empty());
                    } else {
                        assert(q.drop_last().last() == path@[end as int - 2]);
                        assert(q.drop_last().last() == '/');
                        assert(spec_after_last_slash(q.drop_last()) =~= Seq::<char>::empty());
                    }
                    assert(spec_after_last_slash(q) =~= seq!['.']);
                }
            }
            end -= 1;
        }
        if end == 0 {
            proof {
                assert(path@.take(0) =~= Seq::<char>::empty());
            }
            return Err(Error::FileNameMissing);
        }
        let ghost q = path@.take(end as int);
        proof {
            assert(q.last() == path@[end - 1]);
            assert(q.last() != '/');
            assert(q.drop_last() =~= path@.take(end as int - 1));
            if spec_after_last_slash(q) == seq!['.'] {
                assert(spec_after_last_slash(q) == spec_after_last_slash(q.drop_last()).push(
                    q.last(),
                ));
                assert(spec_after_last_slash(q).last() == q.last());
                assert(q.last() == '.');
                assert(spec_after_last_slash(q.drop_last()).len() == 0);
                if end >= 2 {
                    assert(q.drop_last().last() == path@[end as int - 2]);
                    if path@[end as int - 2] != '/' {
                        assert(spec_after_last_slash(q.drop_last())
                            == spec_after_last_slash(q.drop_last().drop_last()).push(
                            q.drop_last().last(),
                        ));
                    }
                }
                assert(false);
            }
            assert(spec_last_component(path@) == Some(spec_after_last_slash(q)));
        }
        let mut start: usize = end;
        while start > 0 && path.get_char(start - 1) != '/'
            invariant
                0 <= start <= end,
                end <= len,
                len == path@.len(),
                forall|j: int| start <= j < end ==> path@[j] != '/',
            decreases start,
        {
            start -= 1;
        }
        proof {
            assert(forall|j: int| start <= j < end ==> q[j] == path@[j]);
            lemma_after_last_slash_skip(q, start as int);
            assert(q.skip(start as int) =~= path@.subrange(start as int, end as int));
        }
        let file_name = path.substring_char(start, end);
        proof {
            assert(file_name@ =~= path@.subrange(start as int, end as int));
            reveal_strlit("..");
            assert(".."@ =~= seq!['.', '.']);
        }
        if str_eq(file_name, "..") {
            return Err(Error::FileNameMissing);
        }
        let name_len = file_name.unicode_len();
        proof {
            reveal_strlit("python");
            assert("python"@ =~= python_prefix());
        }
        if name_len < 9 || !str_starts_with(file_name, "python") {
            return Err(Error::PathFileNameError);
        }
        let version_part = file_name.substring_char(6, name_len);
        proof {
            assert(version_part@ =~= file_name@.skip(6));
        }
        ExactVersion::from_str(version_part)
    }
}

/// Parsing inverts rendering: for every `major` and `minor`, the
/// canonical `{major}.{minor}` string parses back to exactly that
/// request, and rendering the request reproduces `Python {major}.{minor}`.
pub proof fn lemma_render_parse_round_trip(major: u16, minor: u16)
    ensures
        spec_requested_ok(spec_render_exact(ExactVersion { major, minor })) == Some(
            RequestedVersion::Exact(major, minor),
        ),
        spec_render_requested(RequestedVersion::Exact(major, minor)) == python_word() + seq![' ']
            + spec_render_exact(ExactVersion { major, minor }),
{
    let a = spec_digits(major as int);
    let b = spec_digits(minor as int);
    let s = spec_render_exact(ExactVersion { major, minor });
    crate::text::lemma_spec_digits_val(major as int);
    crate::text::lemma_spec_digits_val(minor as int);
    assert(s[a.len() as int] == '.');
    assert(forall|j: int| 0 <= j < a.len() ==> s[j] == #[trigger] a[j]
        && crate::text::is_digit(a[j]));
    assert(forall|j: int| 0 <= j < a.len() ==> s[j] != '.');
    crate::text::lemma_spec_find_converse(s, '.', a.len() as int);
    assert(s.subrange(0, a.len() as int) =~= a);
    assert(s.subrange(a.len() as int + 1, s.len() as int) =~= b);
    assert(spec_exact_ok(s) == Some(ExactVersion { major, minor }));
    assert(spec_render_requested(RequestedVersion::Exact(major, minor)) =~= python_word()
        + seq![' '] + s);
}

/// A string with two or more `.` characters never parses as a version
/// request: the first `.` splits off a minor component that still holds a
/// `.`, and a `.` is not a digit.
pub proof fn lemma_multi_dot_parse_fails(s: Seq<char>)
    requires
        crate::text::count_char(s, '.') >= 2,
    ensures
        spec_requested_ok(s) is None,
        spec_exact_ok(s) is None,
{
    crate::text::lemma_count_char_zero(s, '.');
    assert(exists|j: int| 0 <= j < s.len() && s[j] == '.') by {
        if forall|j: int| 0 <= j < s.len() ==> s[j] != '.' {
            assert(crate::text::count_char(s, '.') == 0);
        }
    }
    let w = choose|j: int| 0 <= j < s.len() && s[j] == '.';
    crate::text::lemma_spec_find(s, '.');
    if spec_find(s, '.') is None {
        assert(s[w] != '.');
    }
    let i = spec_find(s, '.')->Some_0;
    let min = s.subrange(i + 1, s.len() as int);
    crate::text::lemma_count_char_split(s, '.', i);
    crate::text::lemma_count_char_zero(s.take(i), '.');
    assert(forall|j: int| 0 <= j < i ==> s.take(i)[j] == s[j]);
    assert(crate::text::count_char(s.take(i), '.') == 0);
    assert(min =~= s.skip(i + 1));
    assert(crate::text::count_char(min, '.') >= 1);
    crate::text::lemma_count_char_zero(min, '.');
    assert(exists|j: int| 0 <= j < min.len() && min[j] == '.') by {
        if forall|j: int| 0 <= j < min.len() ==> min[j] != '.' {
            assert(crate::text::count_char(min, '.') == 0);
        }
    }
    let d = choose|j: int| 0 <= j < min.len() && min[j] == '.';
    assert(!crate::text::is_digit(min[d]));
    assert(!valid_component(min));
}

/// The numeric order on versions is a strict total order: irreflexive,
/// transitive, and any two distinct versions are ordered. It compares the
/// major components numerically and breaks ties by the minor components,
/// also numerically, never by the digits of a rendering.
pub proof fn lemma_version_order_total(a: ExactVersion, b: ExactVersion, c: ExactVersion)
    ensures
        !version_lt(a, a),
        version_lt(a, b) && version_lt(b, c) ==> version_lt(a, c),
        a != b ==> version_lt(a, b) || version_lt(b, a),
        version_lt(a, b) ==> !version_lt(b, a),
{
}

} // verus!
