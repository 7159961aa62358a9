use vstd::prelude::*;
use crate::text::{chars_of, find_char, first_index_of, is_ascii_lower, lemma_first_index_at};
use crate::version::{
    format_spec, lemma_parse_format, parse_spec, ParseError, TinyVersion, VersionModel,
};

verus! {

/// Why a name cannot be combined with a version.
#[derive(Debug, PartialEq, Eq)]
pub enum NameError {
    /// The name breaks the name grammar; it is carried along.
    InvalidName(String),
}

/// Why a versioned name cannot be split.
#[derive(Debug, Clone, Copy, PartialEq, Eq)]
pub enum SplitError {
    /// There is no hyphen to separate the name from the version.
    MissingHyphen,
    /// The text after the first hyphen is not a version.
    VersionParseError(ParseError),
}

/// A package name: non-empty, made of ASCII lower-case letters and
/// underscores, beginning and ending with a letter.
pub open spec fn valid_name(s: Seq<char>) -> bool {
    &&& s.len() > 0
    &&& is_ascii_lower(s[0])
    &&& is_ascii_lower(s.last())
    &&& forall|i: int| 0 <= i < s.len() ==> is_ascii_lower(#[trigger] s[i]) || s[i] == '_'
}

/// The name, a hyphen, and the canonical text of the version.
pub open spec fn versioned_name_spec(name: Seq<char>, v: VersionModel) -> Seq<char> {
    name + seq!['-'] + format_spec(v)
}

/// A versioned name cut at its first hyphen: the text before it, verbatim,
/// and the version that the text after it denotes.
pub open spec fn split_spec(s: Seq<char>) -> Result<(Seq<char>, VersionModel), SplitError> {
    match first_index_of(s, '-') {
        None => Err(SplitError::MissingHyphen),
        Some(i) => match parse_spec(s.subrange(i + 1, s.len() as int)) {
            Ok(v) => Ok((s.subrange(0, i), v)),
            Err(e) => Err(SplitError::VersionParseError(e)),
        },
    }
}

/// Whether `name` is a valid package name: non-empty, only lower-case ASCII
/// letters and `_`, and neither starting nor ending with `_`.
pub fn is_valid_name(name: &str) -> (r: bool)
    ensures
        r == valid_name(name@),
{
    let cs = chars_of(name);
    let n = cs.len();
    if n == 0 {
        return false;
    }
    let first = cs[0];
    let last = cs[n - 1];
    if !('a' <= first && first <= 'z') || !('a' <= last && last <= 'z') {
        return false;
    }
    let mut i: usize = 0;
    while i < n
        invariant
            n == cs@.len(),
            cs@ == name@,
            i <= n,
            forall|j: int| 0 <= j < i ==> is_ascii_lower(#[trigger] cs@[j]) || cs@[j] == '_',
        decreases n - i,
    {
        let c = cs[i];
        if !(('a' <= c && c <= 'z') || c == '_') {
            return false;
        }
        i += 1;
    }
    true
}

impl TinyVersion {
    /// Combines a package name with this version as `name-version`.
    ///
    /// Fails with `InvalidName`, carrying the name, where the name breaks the
    /// name grammar.
    pub fn versioned_name(&self, name: &str) -> (r: Result<String, NameError>)
        ensures
            match r {
                Ok(out) => valid_name(name@) && out@ == versioned_name_spec(name@, self@),
                Err(NameError::InvalidName(n)) => !valid_name(name@) && n@ == name@,
            },
    {
        if !is_valid_name(name) {
            return Err(NameError::InvalidName(name.to_owned()));
        }
        let mut out = name.to_owned();
        out.append("-");
        let version = self.to_string();
        out.append(version.as_str());
        proof {
            reveal_strlit("-");
        }
        assert(out@ =~= versioned_name_spec(name@, self@));
        Ok(out)
    }
}

/// Splits a versioned name at its first hyphen into the package name,
/// returned as it stands, and the parsed version.
///
/// Fails with `MissingHyphen` where there is no hyphen, and with
/// `VersionParseError` where the text after the first hyphen is not a version.
pub fn split_versioned_name(full_name: &str) -> (r: Result<(String, TinyVersion), SplitError>)
    ensures
        match r {
            Ok((n, v)) => split_spec(full_name@) == Ok::<(Seq<char>, VersionModel), SplitError>(
                (n@, v@),
            ),
            Err(e) => split_spec(full_name@) == Err::<(Seq<char>, VersionModel), SplitError>(e),
        },
{
    let cs = chars_of(full_name);
    let all = cs.as_slice();
    let n = all.len();
    match find_char(all, '-') {
        None => Err(SplitError::MissingHyphen),
        Some(i) => {
            let rest = full_name.substring_char(i + 1, n);
            match TinyVersion::parse(rest) {
                Ok(v) => {
                    let name = full_name.substring_char(0, i);
                    Ok((name.to_owned(), v))
                },
                Err(e) => Err(SplitError::VersionParseError(e)),
            }
        },
    }
}

/// Splitting `name-s`, for a valid name, gives the name back together with
/// what parsing `s` gives: the version, or the parse error wrapped.
pub proof fn lemma_split_versioned(name: Seq<char>, s: Seq<char>)
    requires
        valid_name(name),
    ensures
        split_spec(name + seq!['-'] + s) == match parse_spec(s) {
            Ok(v) => Ok::<(Seq<char>, VersionModel), SplitError>((name, v)),
            Err(e) => Err::<(Seq<char>, VersionModel), SplitError>(
                SplitError::VersionParseError(e),
            ),
        },
{
    let full = name + seq!['-'] + s;
    let k = name.len() as int;
    assert forall|j: int| 0 <= j < k implies full[j] != '-' by {
        assert(full[j] == name[j]);
        assert(is_ascii_lower(name[j]) || name[j] == '_');
    }
    lemma_first_index_at(full, '-', k);
    assert(full.subrange(0, k) =~= name);
    assert(full.subrange(k + 1, full.len() as int) =~= s);
}

/// Splitting the versioned name made from a valid name and a version gives
/// that name and that version back.
pub proof fn lemma_split_versioned_name(name: Seq<char>, v: VersionModel)
    requires
        valid_name(name),
        v.wf(),
    ensures
        split_spec(versioned_name_spec(name, v)) == Ok::<(Seq<char>, VersionModel), SplitError>(
            (name, v),
        ),
{
    lemma_parse_format(v);
    lemma_split_versioned(name, format_spec(v));
}

} // verus!
