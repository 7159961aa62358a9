use vstd::prelude::*;
use vstd::slice::slice_subrange;
use crate::text::{
    chars_of, decimal, find_char, first_index_of, is_ascii_digit, is_ascii_lower,
    is_numeral, lemma_decimal, lemma_first_index_at, lemma_first_index_none,
    lemma_split_join, lemma_split_without_separator, numeral_u32, parse_numeral, push_char,
    push_decimal, split_chars, split_on,
};

verus! {

/// Why a text is not a version.
#[derive(Debug, Clone, Copy, PartialEq, Eq)]
pub enum ParseError {
    /// The part before the first hyphen does not have exactly three
    /// dot-separated fields.
    InvalidFormat,
    /// One of the three fields is not a decimal `u32`.
    InvalidNumber,
    /// The text after the first hyphen breaks the pre-release grammar.
    InvalidPreRelease,
}

/// The mathematical value of a version.
pub ghost struct VersionModel {
    pub major: u32,
    pub minor: u32,
    pub patch: u32,
    pub pre_release: Option<Seq<char>>,
}

impl VersionModel {
    /// A pre-release suffix, where there is one, obeys its grammar.
    pub open spec fn wf(self) -> bool {
        match self.pre_release {
            Some(p) => is_valid_pre_release(p),
            None => true,
        }
    }
}

/// A character allowed in a pre-release identifier.
pub open spec fn is_identifier_char(c: char) -> bool {
    is_ascii_digit(c) || is_ascii_lower(c) || ('A' <= c && c <= 'Z') || c == '-'
}

/// A pre-release identifier: non-empty, made of ASCII letters, digits and
/// hyphens, and, where it is all digits, without a leading zero unless it is
/// exactly "0".
pub open spec fn is_valid_identifier(id: Seq<char>) -> bool {
    &&& id.len() > 0
    &&& forall|i: int| 0 <= i < id.len() ==> is_identifier_char(#[trigger] id[i])
    &&& !(is_numeral(id) && id.len() > 1 && id[0] == '0')
}

/// A pre-release suffix: non-empty, and each of its dot-separated
/// identifiers valid.
pub open spec fn is_valid_pre_release(p: Seq<char>) -> bool {
    &&& p.len() > 0
    &&& forall|k: int|
        0 <= k < split_on(p, '.').len() ==> is_valid_identifier(#[trigger] split_on(p, '.')[k])
}

/// The version that a text denotes, or the first rule that it breaks.
///
/// The text is cut at its first hyphen; what comes before must be three
/// dot-separated `u32` numerals, what comes after (if there is a hyphen) is
/// the pre-release suffix, kept verbatim.
pub open spec fn parse_spec(s: Seq<char>) -> Result<VersionModel, ParseError> {
    let core = match first_index_of(s, '-') {
        Some(i) => s.subrange(0, i),
        None => s,
    };
    let pre = match first_index_of(s, '-') {
        Some(i) => Some(s.subrange(i + 1, s.len() as int)),
        None => None,
    };
    let fields = split_on(core, '.');
    if fields.len() != 3 {
        Err(ParseError::InvalidFormat)
    } else if numeral_u32(fields[0]) is None || numeral_u32(fields[1]) is None || numeral_u32(
        fields[2],
    ) is None {
        Err(ParseError::InvalidNumber)
    } else if pre is Some && !is_valid_pre_release(pre->0) {
        Err(ParseError::InvalidPreRelease)
    } else {
        Ok(
            VersionModel {
                major: numeral_u32(fields[0])->0,
                minor: numeral_u32(fields[1])->0,
                patch: numeral_u32(fields[2])->0,
                pre_release: pre,
            },
        )
    }
}

/// The three numbers in decimal, dot-separated.
pub open spec fn format_core(v: VersionModel) -> Seq<char> {
    decimal(v.major as nat) + seq!['.'] + decimal(v.minor as nat) + seq!['.'] + decimal(
        v.patch as nat,
    )
}

/// The canonical text of a version: `major.minor.patch`, followed by
/// `-pre_release` where there is a pre-release suffix.
pub open spec fn format_spec(v: VersionModel) -> Seq<char> {
    match v.pre_release {
        Some(p) => format_core(v) + seq!['-'] + p,
        None => format_core(v),
    }
}

/// A version `major.minor.patch[-pre_release]`, as produced by parsing.
#[derive(Debug, PartialEq, Eq)]
pub struct TinyVersion {
    major: u32,
    minor: u32,
    patch: u32,
    pre_release: Option<String>,
}

impl View for TinyVersion {
    type V = VersionModel;

    closed spec fn view(&self) -> VersionModel {
        VersionModel {
            major: self.major,
            minor: self.minor,
            patch: self.patch,
            pre_release: match self.pre_release {
                Some(p) => Some(p@),
                None => None,
            },
        }
    }
}

/// A numeral holds no separator of the version grammar.
proof fn lemma_numeral_separators(d: Seq<char>)
    requires
        is_numeral(d),
    ensures
        forall|i: int| 0 <= i < d.len() ==> d[i] != '.' && d[i] != '-',
{
    assert forall|i: int| 0 <= i < d.len() implies d[i] != '.' && d[i] != '-' by {
        assert(is_ascii_digit(d[i]));
    }
}

/// The numbers of a version, written out, split into the three decimals and
/// hold no hyphen.
proof fn lemma_format_core(v: VersionModel)
    ensures
        split_on(format_core(v), '.') == seq![
            decimal(v.major as nat),
            decimal(v.minor as nat),
            decimal(v.patch as nat),
        ],
        numeral_u32(decimal(v.major as nat)) == Some(v.major),
        numeral_u32(decimal(v.minor as nat)) == Some(v.minor),
        numeral_u32(decimal(v.patch as nat)) == Some(v.patch),
        forall|i: int| 0 <= i < format_core(v).len() ==> format_core(v)[i] != '-',
{
    let da = decimal(v.major as nat);
    let db = decimal(v.minor as nat);
    let dc = decimal(v.patch as nat);
    lemma_decimal(v.major as nat);
    lemma_decimal(v.minor as nat);
    lemma_decimal(v.patch as nat);
    lemma_numeral_separators(da);
    lemma_numeral_separators(db);
    lemma_numeral_separators(dc);
    lemma_split_without_separator(da, '.');
    lemma_split_join(da, db, '.');
    lemma_split_join(da + seq!['.'] + db, dc, '.');
    assert(split_on(format_core(v), '.') =~= seq![da, db, dc]);
    let core = format_core(v);
    assert forall|i: int| 0 <= i < core.len() implies core[i] != '-' by {
        let a = da.len() as int;
        let b = db.len() as int;
        if i < a {
            assert(core[i] == da[i]);
        } else if i == a {
            assert(core[i] == '.');
        } else if i < a + 1 + b {
            assert(core[i] == db[i - a - 1]);
        } else if i == a + 1 + b {
            assert(core[i] == '.');
        } else {
            assert(core[i] == dc[i - a - b - 2]);
        }
    }
}

/// Parsing the canonical text of a well-formed version gives that version
/// back.
pub proof fn lemma_parse_format(v: VersionModel)
    requires
        v.wf(),
    ensures
        parse_spec(format_spec(v)) == Ok::<VersionModel, ParseError>(v),
{
    lemma_format_core(v);
    let core = format_core(v);
    let s = format_spec(v);
    match v.pre_release {
        Some(p) => {
            assert(s[core.len() as int] == '-');
            assert forall|j: int| 0 <= j < core.len() implies s[j] != '-' by {
                assert(s[j] == core[j]);
            }
            lemma_first_index_at(s, '-', core.len() as int);
            assert(s.subrange(0, core.len() as int) =~= core);
            assert(s.subrange(core.len() as int + 1, s.len() as int) =~= p);
        },
        None => {
            lemma_first_index_none(s, '-');
        },
    }
}

/// Whether `id` is a valid pre-release identifier.
fn check_identifier(id: &[char]) -> (r: bool)
    ensures
        r == is_valid_identifier(id@),
{
    if id.len() == 0 {
        return false;
    }
    let mut all_digits = true;
    let mut i: usize = 0;
    while i < id.len()
        invariant
            i <= id@.len(),
            forall|j: int| 0 <= j < i ==> is_identifier_char(#[trigger] id@[j]),
            all_digits == forall|j: int| 0 <= j < i ==> is_ascii_digit(#[trigger] id@[j]),
        decreases id@.len() - i,
    {
        let c = id[i];
        let digit = '0' <= c && c <= '9';
        if !(digit || ('a' <= c && c <= 'z') || ('A' <= c && c <= 'Z') || c == '-') {
            return false;
        }
        if !digit {
            all_digits = false;
        }
        i += 1;
    }
    !(all_digits && id.len() > 1 && id[0] == '0')
}

/// Whether `p` is a valid pre-release suffix.
fn check_pre_release(p: &[char]) -> (r: bool)
    ensures
        r == is_valid_pre_release(p@),
{
    if p.len() == 0 {
        return false;
    }
    let ids = split_chars(p, '.');
    let mut k: usize = 0;
    while k < ids.len()
        invariant
            k <= ids@.len(),
            ids@.len() == split_on(p@, '.').len(),
            forall|m: int| 0 <= m < ids@.len() ==> (#[trigger] ids@[m])@ == split_on(p@, '.')[m],
            forall|m: int| 0 <= m < k ==> is_valid_identifier(#[trigger] split_on(p@, '.')[m]),
        decreases ids@.len() - k,
    {
        if !check_identifier(ids[k].as_slice()) {
            assert(ids@[k as int]@ == split_on(p@, '.')[k as int]);
            return false;
        }
        k += 1;
    }
    true
}

impl TinyVersion {
    #[verifier::type_invariant]
    spec fn well_formed(self) -> bool {
        self@.wf()
    }

    /// Parses `major.minor.patch` or `major.minor.patch-pre_release`.
    ///
    /// The text is cut at its first hyphen. The part before it must have
    /// exactly three dot-separated fields (else `InvalidFormat`), each a
    /// decimal `u32` (else `InvalidNumber`); the part after it must be a valid
    /// pre-release suffix (else `InvalidPreRelease`), and is kept verbatim.
    pub fn parse(s: &str) -> (r: Result<TinyVersion, ParseError>)
        ensures
            match r {
                Ok(v) => parse_spec(s@) == Ok::<VersionModel, ParseError>(v@),
                Err(e) => parse_spec(s@) == Err::<VersionModel, ParseError>(e),
            },
    {
        let chars = chars_of(s);
        let all = chars.as_slice();
        let hyphen = find_char(all, '-');
        let core_end = match hyphen {
            Some(i) => i,
            None => all.len(),
        };
        let core = slice_subrange(all, 0, core_end);
        assert(core@ =~= match first_index_of(s@, '-') {
            Some(i) => s@.subrange(0, i),
            None => s@,
        });
        let fields = split_chars(core, '.');
        if fields.len() != 3 {
            return Err(ParseError::InvalidFormat);
        }
        let major = match parse_numeral(fields[0].as_slice()) {
            Some(n) => n,
            None => return Err(ParseError::InvalidNumber),
        };
        let minor = match parse_numeral(fields[1].as_slice()) {
            Some(n) => n,
            None => return Err(ParseError::InvalidNumber),
        };
        let patch = match parse_numeral(fields[2].as_slice()) {
            Some(n) => n,
            None => return Err(ParseError::InvalidNumber),
        };
        let pre_release = match hyphen {
            Some(i) => {
                let pre = slice_subrange(all, i + 1, all.len());
                if !check_pre_release(pre) {
                    return Err(ParseError::InvalidPreRelease);
                }
                let text = s.substring_char(i + 1, all.len());
                Some(text.to_owned())
            },
            None => None,
        };
        Ok(TinyVersion { major, minor, patch, pre_release })
    }

    /// The canonical text of the version: `major.minor.patch`, followed by
    /// `-pre_release` where there is a pre-release suffix. Parsing it gives
    /// the version back.
    pub fn to_string(&self) -> (r: String)
        ensures
            r@ == format_spec(self@),
            parse_spec(r@) == Ok::<VersionModel, ParseError>(self@),
    {
        proof {
            use_type_invariant(self);
            lemma_parse_format(self@);
        }
        let mut out = String::new();
        push_decimal(&mut out, self.major);
        push_char(&mut out, '.');
        push_decimal(&mut out, self.minor);
        push_char(&mut out, '.');
        push_decimal(&mut out, self.patch);
        match &self.pre_release {
            Some(p) => {
                push_char(&mut out, '-');
                out.append(p.as_str());
            },
            None => {},
        }
        assert(out@ =~= format_spec(self@));
        out
    }
}

impl Clone for TinyVersion {
    fn clone(&self) -> (r: TinyVersion)
        ensures
            r@ == self@,
    {
        proof {
            use_type_invariant(self);
        }
        let pre_release = match &self.pre_release {
            Some(p) => Some(p.clone()),
            None => None,
        };
        TinyVersion { major: self.major, minor: self.minor, patch: self.patch, pre_release }
    }
}

impl std::str::FromStr for TinyVersion {
    type Err = ParseError;

    fn from_str(s: &str) -> (r: Result<TinyVersion, ParseError>)
        ensures
            match r {
                Ok(v) => parse_spec(s@) == Ok::<VersionModel, ParseError>(v@),
                Err(e) => parse_spec(s@) == Err::<VersionModel, ParseError>(e),
            },
    {
        TinyVersion::parse(s)
    }
}

} // verus!
