use vstd::prelude::*;
use vstd::std_specs::iter::IteratorSpec;

verus! {

/// An ASCII decimal digit.
pub open spec fn is_ascii_digit(c: char) -> bool {
    '0' <= c && c <= '9'
}

/// An ASCII lower-case letter.
pub open spec fn is_ascii_lower(c: char) -> bool {
    'a' <= c && c <= 'z'
}

/// The numeric value of a decimal digit character.
pub open spec fn digit_of(c: char) -> int {
    c as int - '0' as int
}

/// The character that writes the decimal digit `d`.
pub open spec fn char_of(d: int) -> char {
    (d + '0' as int) as char
}

/// A non-empty run of ASCII decimal digits.
pub open spec fn is_numeral(s: Seq<char>) -> bool {
    s.len() > 0 && forall|i: int| 0 <= i < s.len() ==> is_ascii_digit(#[trigger] s[i])
}

/// The value of a run of decimal digits, most significant first.
pub open spec fn value_of_digits(s: Seq<char>) -> int
    decreases s.len(),
{
    if s.len() == 0 {
        0
    } else {
        value_of_digits(s.drop_last()) * 10 + digit_of(s.last())
    }
}

/// The `u32` that a numeral writes, if it is one and the value fits.
/// Leading zeros are allowed; signs and any other characters are not.
pub open spec fn numeral_u32(s: Seq<char>) -> Option<u32> {
    if is_numeral(s) && value_of_digits(s) <= u32::MAX {
        Some(value_of_digits(s) as u32)
    } else {
        None
    }
}

/// The shortest decimal writing of `n`: no leading zero, "0" for zero.
pub open spec fn decimal(n: nat) -> Seq<char>
    decreases n,
{
    if n < 10 {
        seq![char_of(n as int)]
    } else {
        decimal(n / 10).push(char_of((n % 10) as int))
    }
}

/// The position of the first `c` in `s`, if there is one.
pub open spec fn first_index_of(s: Seq<char>, c: char) -> Option<int>
    decreases s.len(),
{
    if s.len() == 0 {
        None
    } else if s[0] == c {
        Some(0)
    } else {
        match first_index_of(s.drop_first(), c) {
            Some(i) => Some(i + 1),
            None => None,
        }
    }
}

/// The pieces of `s` between the occurrences of the separator `c`.
/// There is always at least one piece; pieces may be empty.
pub open spec fn split_on(s: Seq<char>, c: char) -> Seq<Seq<char>>
    decreases s.len(),
{
    if s.len() == 0 {
        seq![Seq::empty()]
    } else {
        let init = split_on(s.drop_last(), c);
        if s.last() == c {
            init.push(Seq::empty())
        } else {
            init.update(init.len() - 1, init.last().push(s.last()))
        }
    }
}

/// `first_index_of` finds the first occurrence, and finds none only where
/// there is none.
pub proof fn lemma_first_index_of(s: Seq<char>, c: char)
    ensures
        match first_index_of(s, c) {
            Some(i) => 0 <= i < s.len() && s[i] == c && forall|j: int| 0 <= j < i ==> s[j] != c,
            None => forall|j: int| 0 <= j < s.len() ==> s[j] != c,
        },
    decreases s.len(),
{
    if s.len() > 0 && s[0] != c {
        lemma_first_index_of(s.drop_first(), c);
        match first_index_of(s.drop_first(), c) {
            Some(i) => {
                assert forall|j: int| 0 <= j < i + 1 implies s[j] != c by {
                    if j > 0 {
                        assert(s[j] == s.drop_first()[j - 1]);
                    }
                }
            },
            None => {
                assert forall|j: int| 0 <= j < s.len() implies s[j] != c by {
                    if j > 0 {
                        assert(s[j] == s.drop_first()[j - 1]);
                    }
                }
            },
        }
    }
}

/// A position `i` that holds `c`, with no `c` before it, is the first index.
pub proof fn lemma_first_index_at(s: Seq<char>, c: char, i: int)
    requires
        0 <= i < s.len(),
        s[i] == c,
        forall|j: int| 0 <= j < i ==> s[j] != c,
    ensures
        first_index_of(s, c) == Some(i),
{
    lemma_first_index_of(s, c);
}

/// Where `c` does not occur, there is no first index.
pub proof fn lemma_first_index_none(s: Seq<char>, c: char)
    requires
        forall|j: int| 0 <= j < s.len() ==> s[j] != c,
    ensures
        first_index_of(s, c) is None,
{
    lemma_first_index_of(s, c);
}

/// Every split has at least one piece.
pub proof fn lemma_split_nonempty(s: Seq<char>, c: char)
    ensures
        split_on(s, c).len() >= 1,
    decreases s.len(),
{
    if s.len() > 0 {
        lemma_split_nonempty(s.drop_last(), c);
    }
}

/// A text without the separator is a single piece.
pub proof fn lemma_split_without_separator(s: Seq<char>, c: char)
    requires
        forall|i: int| 0 <= i < s.len() ==> s[i] != c,
    ensures
        split_on(s, c) == seq![s],
    decreases s.len(),
{
    if s.len() > 0 {
        lemma_split_without_separator(s.drop_last(), c);
        assert(s.drop_last().push(s.last()) =~= s);
        assert(split_on(s, c) =~= seq![s]);
    } else {
        assert(s =~= Seq::<char>::empty());
    }
}

/// Appending text without the separator extends the last piece.
pub proof fn lemma_split_extend(p: Seq<char>, q: Seq<char>, c: char)
    requires
        forall|i: int| 0 <= i < q.len() ==> q[i] != c,
    ensures
        split_on(p + q, c) == split_on(p, c).update(
            split_on(p, c).len() - 1,
            split_on(p, c).last() + q,
        ),
    decreases q.len(),
{
    lemma_split_nonempty(p, c);
    if q.len() == 0 {
        assert(p + q =~= p);
        assert(split_on(p, c).last() + q =~= split_on(p, c).last());
        assert(split_on(p, c).update(split_on(p, c).len() - 1, split_on(p, c).last())
            =~= split_on(p, c));
    } else {
        let q0 = q.drop_last();
        lemma_split_extend(p, q0, c);
        assert((p + q).drop_last() =~= p + q0);
        assert((p + q).last() == q.last());
        assert(q[q.len() - 1] != c);
        let sp = split_on(p, c);
        let init = split_on(p + q0, c);
        assert(init.len() == sp.len());
        assert(init.last() == sp.last() + q0);
        assert((sp.last() + q0).push(q.last()) =~= sp.last() + q);
        assert(split_on(p + q, c) == init.update(init.len() - 1, init.last().push(q.last())));
        assert(split_on(p + q, c) =~= split_on(p, c).update(
            split_on(p, c).len() - 1,
            split_on(p, c).last() + q,
        ));
    }
}

/// Joining a text and a separator-free piece with the separator adds that
/// piece to the split.
pub proof fn lemma_split_join(p: Seq<char>, q: Seq<char>, c: char)
    requires
        forall|i: int| 0 <= i < q.len() ==> q[i] != c,
    ensures
        split_on(p + seq![c] + q, c) == split_on(p, c).push(q),
{
    let pc = p + seq![c];
    assert(pc.drop_last() =~= p);
    assert(split_on(pc, c) == split_on(p, c).push(Seq::empty()));
    lemma_split_extend(pc, q, c);
    assert(Seq::<char>::empty() + q =~= q);
    assert(split_on(p + seq![c] + q, c) =~= split_on(p, c).push(q));
}

/// The characters of `s`, in order.
pub fn chars_of(s: &str) -> (r: Vec<char>)
    ensures
        r@ == s@,
{
    broadcast use vstd::string::group_string_axioms;

    let mut it = s.chars();
    let mut r: Vec<char> = Vec::new();
    loop
        invariant
            it.remaining() == s@.subrange(r@.len() as int, s@.len() as int),
            r@ == s@.subrange(0, r@.len() as int),
            r@.len() <= s@.len(),
        decreases s@.len() - r@.len(),
    {
        match it.next() {
            Some(c) => {
                r.push(c);
            },
            None => {
                assert(r@ =~= s@);
                return r;
            },
        }
    }
}

/// The position of the first `c` in `s`.
pub fn find_char(s: &[char], c: char) -> (r: Option<usize>)
    ensures
        match r {
            Some(i) => i < s@.len() && first_index_of(s@, c) == Some(i as int),
            None => first_index_of(s@, c) is None,
        },
{
    let mut i: usize = 0;
    while i < s.len()
        invariant
            i <= s@.len(),
            forall|j: int| 0 <= j < i ==> s@[j] != c,
        decreases s@.len() - i,
    {
        if s[i] == c {
            proof {
                lemma_first_index_at(s@, c, i as int);
            }
            return Some(i);
        }
        i += 1;
    }
    proof {
        lemma_first_index_none(s@, c);
    }
    None
}

/// The pieces of `s` between the occurrences of `c`, as `split_on` gives them.
pub fn split_chars(s: &[char], c: char) -> (r: Vec<Vec<char>>)
    ensures
        r@.len() == split_on(s@, c).len(),
        forall|k: int| 0 <= k < r@.len() ==> (#[trigger] r@[k])@ == split_on(s@, c)[k],
{
    let mut pieces: Vec<Vec<char>> = Vec::new();
    let mut cur: Vec<char> = Vec::new();
    let mut i: usize = 0;
    proof {
        assert(s@.subrange(0, 0) =~= Seq::<char>::empty());
    }
    while i < s.len()
        invariant
            i <= s@.len(),
            split_on(s@.subrange(0, i as int), c).len() == pieces@.len() + 1,
            forall|k: int|
                0 <= k < pieces@.len() ==> (#[trigger] pieces@[k])@ == split_on(
                    s@.subrange(0, i as int),
                    c,
                )[k],
            cur@ == split_on(s@.subrange(0, i as int), c).last(),
        decreases s@.len() - i,
    {
        let ghost before = s@.subrange(0, i as int);
        let ghost after = s@.subrange(0, i + 1);
        assert(after.drop_last() =~= before);
        assert(after.last() == s@[i as int]);
        if s[i] == c {
            pieces.push(cur);
            cur = Vec::new();
        } else {
            cur.push(s[i]);
        }
        i += 1;
    }
    assert(s@.subrange(0, s@.len() as int) =~= s@);
    pieces.push(cur);
    pieces
}

/// The value of an all-digit run is at least that of any of its prefixes,
/// and never negative.
pub proof fn lemma_value_prefix(s: Seq<char>, k: int)
    requires
        0 <= k <= s.len(),
        forall|i: int| 0 <= i < s.len() ==> is_ascii_digit(#[trigger] s[i]),
    ensures
        0 <= value_of_digits(s.subrange(0, k)) <= value_of_digits(s),
    decreases s.len(),
{
    if k < s.len() {
        let t = s.drop_last();
        assert(t.subrange(0, k) =~= s.subrange(0, k));
        assert(forall|i: int| 0 <= i < t.len() ==> t[i] == s[i]);
        lemma_value_prefix(t, k);
        assert(is_ascii_digit(s[s.len() - 1]));
    } else {
        assert(s.subrange(0, k) =~= s);
        if s.len() > 0 {
            let t = s.drop_last();
            assert(forall|i: int| 0 <= i < t.len() ==> t[i] == s[i]);
            lemma_value_prefix(t, 0);
            assert(is_ascii_digit(s[s.len() - 1]));
        }
    }
}

/// `decimal(n)` is a numeral whose value is `n`.
pub proof fn lemma_decimal(n: nat)
    ensures
        is_numeral(decimal(n)),
        value_of_digits(decimal(n)) == n,
    decreases n,
{
    if n >= 10 {
        lemma_decimal(n / 10);
        let d = decimal(n);
        assert(d.drop_last() =~= decimal(n / 10));
        assert(n == (n / 10) * 10 + n % 10) by (nonlinear_arith);
        assert forall|i: int| 0 <= i < d.len() implies is_ascii_digit(#[trigger] d[i]) by {
            if i < d.len() - 1 {
                assert(d[i] == decimal(n / 10)[i]);
            }
        }
        assert(digit_of(d.last()) == n % 10);
        assert(value_of_digits(d) == value_of_digits(decimal(n / 10)) * 10 + n % 10);
    } else {
        assert(decimal(n).drop_last() =~= Seq::<char>::empty());
        assert(value_of_digits(decimal(n)) == value_of_digits(Seq::<char>::empty()) * 10 + n);
    }
}

/// The number that a numeral writes, where it fits in a `u32`.
pub fn parse_numeral(s: &[char]) -> (r: Option<u32>)
    ensures
        r == numeral_u32(s@),
{
    if s.len() == 0 {
        return None;
    }
    let mut i: usize = 0;
    while i < s.len()
        invariant
            i <= s@.len(),
            forall|j: int| 0 <= j < i ==> is_ascii_digit(#[trigger] s@[j]),
        decreases s@.len() - i,
    {
        if !('0' <= s[i] && s[i] <= '9') {
            return None;
        }
        i += 1;
    }
    let mut value: u64 = 0;
    i = 0;
    assert(s@.subrange(0, 0) =~= Seq::<char>::empty());
    while i < s.len()
        invariant
            i <= s@.len(),
            is_numeral(s@),
            value == value_of_digits(s@.subrange(0, i as int)),
            value <= u32::MAX,
        decreases s@.len() - i,
    {
        let digit = (s[i] as u32 - 48) as u64;
        let next = value * 10 + digit;
        let ghost after = s@.subrange(0, i + 1);
        assert(after.drop_last() =~= s@.subrange(0, i as int));
        assert(is_ascii_digit(s@[i as int]));
        if next > u32::MAX as u64 {
            proof {
                lemma_value_prefix(s@, i + 1);
            }
            return None;
        }
        value = next;
        i += 1;
    }
    assert(s@.subrange(0, s@.len() as int) =~= s@);
    Some(value as u32)
}

/// Relies on `String::push`: appends the character `c` to `s`.
#[verifier::external_body]
pub(crate) fn push_char(s: &mut String, c: char)
    ensures
        final(s)@ == old(s)@.push(c),
{
    s.push(c)
}

/// Appends the shortest decimal writing of `n` to `out`.
pub fn push_decimal(out: &mut String, n: u32)
    ensures
        final(out)@ == old(out)@ + decimal(n as nat),
    decreases n,
{
    if n >= 10 {
        push_decimal(out, n / 10);
    }
    let d = (n % 10) as u8;
    push_char(out, (d + 48) as char);
    proof {
        if n < 10 {
            assert(decimal(n as nat) =~= seq![char_of(n as int)]);
        }
    }
    assert(final(out)@ =~= old(out)@ + decimal(n as nat));
}

} // verus!
