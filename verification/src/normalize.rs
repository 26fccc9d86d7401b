//! The name-normalization rule for extras.
//!
//! A name is normalized by lowercasing ASCII letters and collapsing every
//! maximal run of `-`, `_` and `.` to a single `-`. A name is accepted when it
//! is nonempty, holds only ASCII letters, digits and those separators, and
//! begins and ends with a letter or digit.

use vstd::prelude::*;
use vstd::string::*;

verus! {

/// True for the separator characters that normalization collapses.
pub open spec fn is_sep_char(c: char) -> bool {
    c == '-' || c == '_' || c == '.'
}

/// True for ASCII uppercase letters.
pub open spec fn is_upper_char(c: char) -> bool {
    ('A' as u32) <= (c as u32) && (c as u32) <= ('Z' as u32)
}

/// True for ASCII lowercase letters.
pub open spec fn is_lower_char(c: char) -> bool {
    ('a' as u32) <= (c as u32) && (c as u32) <= ('z' as u32)
}

/// True for ASCII digits.
pub open spec fn is_digit_char(c: char) -> bool {
    ('0' as u32) <= (c as u32) && (c as u32) <= ('9' as u32)
}

/// True for ASCII letters and digits.
pub open spec fn is_alnum_char(c: char) -> bool {
    is_upper_char(c) || is_lower_char(c) || is_digit_char(c)
}

/// True for every character a raw name may contain.
pub open spec fn is_allowed_char(c: char) -> bool {
    is_alnum_char(c) || is_sep_char(c)
}

/// True for every character a normalized name may contain.
pub open spec fn is_canon_char(c: char) -> bool {
    is_lower_char(c) || is_digit_char(c) || c == '-'
}

/// The canonical form of one character: separators become `-`,
/// uppercase ASCII letters are lowered, everything else is unchanged.
pub open spec fn canon_char(c: char) -> char {
    if is_sep_char(c) {
        '-'
    } else if is_upper_char(c) {
        ((((c as u32) + 32) as u8)) as char
    } else {
        c
    }
}

/// Every character of `s`, canonicalized, runs of separators not yet collapsed.
pub open spec fn mapped(s: Seq<char>) -> Seq<char> {
    Seq::new(s.len(), |i: int| canon_char(s[i]))
}

/// Collapses every run of adjacent `-` characters to a single `-`.
pub open spec fn collapse(s: Seq<char>) -> Seq<char>
    decreases s.len(),
{
    if s.len() <= 1 {
        s
    } else if s[0] == '-' && s[1] == '-' {
        collapse(s.drop_first())
    } else {
        seq![s[0]] + collapse(s.drop_first())
    }
}

/// The normalized form of a name: canonicalize each character, then collapse
/// the separator runs.
pub open spec fn normalize(s: Seq<char>) -> Seq<char> {
    collapse(mapped(s))
}

/// True when the normalizer accepts `s`: nonempty, only allowed characters,
/// and an ASCII letter or digit at each end.
pub open spec fn is_valid_name(s: Seq<char>) -> bool {
    &&& s.len() > 0
    &&& (forall|i: int| 0 <= i < s.len() ==> is_allowed_char(#[trigger] s[i]))
    &&& is_alnum_char(s[0])
    &&& is_alnum_char(s[s.len() - 1])
}

/// True when `s` is a fixed point of normalization: a valid name that the
/// normalizer returns unchanged.
pub open spec fn is_canonical_name(s: Seq<char>) -> bool {
    is_valid_name(s) && normalize(s) == s
}

/// True when `s` has no two adjacent `-` characters.
pub open spec fn no_dash_run(s: Seq<char>) -> bool {
    forall|i: int| 0 <= i < s.len() - 1 ==> !(#[trigger] s[i] == '-' && s[i + 1] == '-')
}

proof fn lemma_collapse_first(s: Seq<char>)
    requires
        s.len() > 0,
    ensures
        collapse(s).len() > 0,
        collapse(s)[0] == '-' <==> s[0] == '-',
        s[0] != '-' ==> collapse(s)[0] == s[0],
    decreases s.len(),
{
    if s.len() <= 1 {
    } else if s[0] == '-' && s[1] == '-' {
        lemma_collapse_first(s.drop_first());
    } else {
        lemma_collapse_first(s.drop_first());
    }
}

proof fn lemma_collapse_last(s: Seq<char>)
    requires
        s.len() > 0,
    ensures
        collapse(s).last() == s.last(),
    decreases s.len(),
{
    if s.len() <= 1 {
    } else {
        lemma_collapse_last(s.drop_first());
        lemma_collapse_first(s.drop_first());
        assert(s.drop_first().last() == s.last());
    }
}

proof fn lemma_collapse_push_other(s: Seq<char>, c: char)
    requires
        c != '-',
    ensures
        collapse(s.push(c)) == collapse(s).push(c),
    decreases s.len(),
{
    let t = s.push(c);
    if s.len() == 0 {
        assert(t.len() == 1);
        assert(collapse(t) == t);
        assert(collapse(s).push(c) =~= t);
    } else if s.len() == 1 {
        assert(t.len() == 2);
        assert(t[1] == c);
        assert(t.drop_first() =~= seq![c]);
        assert(collapse(t) == seq![t[0]] + collapse(t.drop_first()));
        assert(collapse(t) =~= s.push(c));
        assert(collapse(s) == s);
    } else {
        assert(t[0] == s[0] && t[1] == s[1]);
        assert(t.drop_first() =~= s.drop_first().push(c));
        lemma_collapse_push_other(s.drop_first(), c);
        if s[0] == '-' && s[1] == '-' {
            assert(collapse(t) == collapse(s.drop_first()).push(c));
            assert(collapse(s) == collapse(s.drop_first()));
        } else {
            assert(collapse(t) == seq![s[0]] + collapse(s.drop_first()).push(c));
            assert(seq![s[0]] + collapse(s.drop_first()).push(c) =~= (seq![s[0]] + collapse(s.drop_first())).push(c));
        }
    }
}

proof fn lemma_collapse_push_dash(s: Seq<char>)
    requires
        s.len() > 0,
        s.last() != '-',
    ensures
        collapse(s.push('-')) == collapse(s).push('-'),
    decreases s.len(),
{
    let t = s.push('-');
    if s.len() == 1 {
        assert(t.len() == 2);
        assert(t[0] == s[0] && t[0] != '-');
        assert(t.drop_first() =~= seq!['-']);
        assert(collapse(t) == seq![t[0]] + collapse(t.drop_first()));
        assert(collapse(t) =~= s.push('-'));
        assert(collapse(s) == s);
    } else {
        assert(t[0] == s[0] && t[1] == s[1]);
        assert(t.drop_first() =~= s.drop_first().push('-'));
        assert(s.drop_first().last() == s.last());
        lemma_collapse_push_dash(s.drop_first());
        if s[0] == '-' && s[1] == '-' {
            assert(collapse(t) == collapse(s.drop_first()).push('-'));
            assert(collapse(s) == collapse(s.drop_first()));
        } else {
            assert(collapse(t) == seq![s[0]] + collapse(s.drop_first()).push('-'));
            assert(seq![s[0]] + collapse(s.drop_first()).push('-') =~= (seq![s[0]] + collapse(s.drop_first())).push('-'));
        }
    }
}

proof fn lemma_collapse_push_dup(s: Seq<char>)
    requires
        s.len() > 0,
        s.last() == '-',
    ensures
        collapse(s.push('-')) == collapse(s),
    decreases s.len(),
{
    let t = s.push('-');
    if s.len() == 1 {
        assert(s[0] == '-');
        assert(t[0] == '-' && t[1] == '-');
        assert(t.drop_first() =~= seq!['-']);
        assert(collapse(t) == collapse(t.drop_first()));
        assert(collapse(t) == seq!['-']);
        assert(collapse(s) =~= seq!['-']);
    } else {
        assert(t[0] == s[0] && t[1] == s[1]);
        assert(t.drop_first() =~= s.drop_first().push('-'));
        assert(s.drop_first().last() == s.last());
        lemma_collapse_push_dup(s.drop_first());
        if s[0] == '-' && s[1] == '-' {
            assert(collapse(t) == collapse(t.drop_first()));
            assert(collapse(t) == collapse(s.drop_first().push('-')));
            assert(collapse(s) == collapse(s.drop_first()));
        } else {
            assert(collapse(t) == seq![s[0]] + collapse(s.drop_first().push('-')));
            assert(collapse(t) == seq![s[0]] + collapse(s.drop_first()));
            assert(collapse(s) == seq![s[0]] + collapse(s.drop_first()));
        }
    }
}

proof fn lemma_collapse_keeps_canon(s: Seq<char>)
    requires
        forall|i: int| 0 <= i < s.len() ==> is_canon_char(#[trigger] s[i]),
    ensures
        forall|i: int| 0 <= i < collapse(s).len() ==> is_canon_char(#[trigger] collapse(s)[i]),
    decreases s.len(),
{
    if s.len() <= 1 {
    } else {
        assert(forall|i: int|
            0 <= i < s.drop_first().len() ==> is_canon_char(#[trigger] s.drop_first()[i]));
        lemma_collapse_keeps_canon(s.drop_first());
        if s[0] == '-' && s[1] == '-' {
        } else {
            let r = seq![s[0]] + collapse(s.drop_first());
            assert(collapse(s) == r);
            assert(forall|i: int| 0 <= i < r.len() ==> is_canon_char(#[trigger] r[i])) by {
                assert(r[0] == s[0]);
                assert(forall|i: int|
                    1 <= i < r.len() ==> #[trigger] r[i] == collapse(s.drop_first())[i - 1]);
            }
        }
    }
}

proof fn lemma_collapse_no_dash_run(s: Seq<char>)
    ensures
        no_dash_run(collapse(s)),
    decreases s.len(),
{
    if s.len() <= 1 {
    } else if s[0] == '-' && s[1] == '-' {
        lemma_collapse_no_dash_run(s.drop_first());
    } else {
        lemma_collapse_no_dash_run(s.drop_first());
        lemma_collapse_first(s.drop_first());
        let d = collapse(s.drop_first());
        let r = seq![s[0]] + collapse(s.drop_first());
        assert(collapse(s) == r);
        assert(r[0] == s[0]);
        assert(forall|i: int| 1 <= i < r.len() ==> #[trigger] r[i] == d[i - 1]);
        assert(!(r[0] == '-' && r[1] == '-')) by {
            if s[0] == '-' {
                assert(s[1] != '-');
                assert(s.drop_first()[0] == s[1]);
                assert(d[0] != '-');
                assert(r[1] == d[0]);
            }
        }
        assert(forall|i: int| 1 <= i < r.len() - 1 ==> !(#[trigger] r[i] == '-' && r[i + 1] == '-'))
            by {
            assert(forall|i: int|
                1 <= i < r.len() - 1 ==> !(#[trigger] d[i - 1] == '-' && d[i] == '-'));
        }
    }
}

proof fn lemma_collapse_identity(s: Seq<char>)
    requires
        no_dash_run(s),
    ensures
        collapse(s) == s,
    decreases s.len(),
{
    if s.len() <= 1 {
    } else {
        assert(!(s[0] == '-' && s[1] == '-'));
        assert(forall|i: int|
            0 <= i < s.drop_first().len() - 1 ==> !(#[trigger] s.drop_first()[i] == '-'
                && s.drop_first()[i + 1] == '-')) by {
            assert(forall|i: int|
                0 <= i < s.len() - 2 ==> !(#[trigger] s[i + 1] == '-' && s[i + 2] == '-'));
        }
        lemma_collapse_identity(s.drop_first());
        assert(seq![s[0]] + s.drop_first() =~= s);
    }
}

/// Law: normalization is idempotent. On any accepted name it yields a valid
/// name that the normalizer returns unchanged, so normalizing twice equals
/// normalizing once.
pub proof fn lemma_normalize_canonical(s: Seq<char>)
    requires
        is_valid_name(s),
    ensures
        is_canonical_name(normalize(s)),
        normalize(normalize(s)) == normalize(s),
{
    let m = mapped(s);
    let n = collapse(m);
    assert(forall|i: int| 0 <= i < m.len() ==> is_canon_char(#[trigger] m[i])) by {
        assert(forall|i: int| 0 <= i < s.len() ==> is_canon_char(#[trigger] canon_char(s[i])));
    }
    lemma_collapse_keeps_canon(m);
    lemma_collapse_first(m);
    lemma_collapse_last(m);
    lemma_collapse_no_dash_run(m);
    assert(m[0] == canon_char(s[0]));
    assert(m.last() == canon_char(s[s.len() - 1]));
    assert(is_alnum_char(n[0]));
    assert(is_alnum_char(n.last()));
    assert(is_valid_name(n)) by {
        assert(forall|i: int| 0 <= i < n.len() ==> is_allowed_char(#[trigger] n[i]));
    }
    assert(mapped(n) =~= n);
    lemma_collapse_identity(n);
}

/// Every character of a canonical name is a lowercase ASCII letter, an ASCII
/// digit, or `-`.
pub proof fn lemma_canonical_chars(s: Seq<char>)
    requires
        is_canonical_name(s),
    ensures
        forall|i: int| 0 <= i < s.len() ==> is_canon_char(#[trigger] s[i]),
{
    let m = mapped(s);
    assert(forall|i: int| 0 <= i < m.len() ==> is_canon_char(#[trigger] m[i])) by {
        assert(forall|i: int| 0 <= i < s.len() ==> is_canon_char(#[trigger] canon_char(s[i])));
    }
    lemma_collapse_keeps_canon(m);
    assert(forall|i: int| 0 <= i < s.len() ==> collapse(m)[i] == #[trigger] s[i]);
}

/// The error returned when a name cannot be normalized; it carries the
/// offending input for diagnostics.
#[derive(Debug, Clone, PartialEq, Eq)]
pub struct InvalidNameError {
    input: String,
}

impl View for InvalidNameError {
    type V = Seq<char>;

    closed spec fn view(&self) -> Seq<char> {
        self.input@
    }
}

/// The diagnostic text for an input the normalizer rejects.
pub open spec fn invalid_name_message(input: Seq<char>) -> Seq<char> {
    "Not a valid package or extra name: \""@ + input
        + "\". Names must start and end with a letter or digit and may only contain -, _, ., and alphanumeric characters"@
}

impl InvalidNameError {
    /// Record `name` as rejected.
    pub(crate) fn for_input(name: &str) -> (e: Self)
        ensures
            e@ == name@,
    {
        InvalidNameError { input: name.to_owned() }
    }

    /// The input that was rejected.
    pub fn input(&self) -> (r: &str)
        ensures
            r@ == self@,
    {
        self.input.as_str()
    }

    /// A diagnostic message naming the rejected input.
    pub fn message(&self) -> (r: String)
        ensures
            r@ == invalid_name_message(self@),
    {
        let mut m = ("Not a valid package or extra name: \"").to_owned();
        m.append(self.input.as_str());
        m.append(
            "\". Names must start and end with a letter or digit and may only contain -, _, ., and alphanumeric characters",
        );
        proof {
            assert(m@ =~= invalid_name_message(self@));
        }
        m
    }
}

/// Relies on `String::push`: appends the given character to the end of the
/// string.
#[verifier::external_body]
fn push_char(s: &mut String, c: char)
    ensures
        final (s)@ == old(s)@.push(c),
{
    s.push(c);
}

fn check_sep(c: char) -> (b: bool)
    ensures
        b == is_sep_char(c),
{
    c == '-' || c == '_' || c == '.'
}

fn check_alnum(c: char) -> (b: bool)
    ensures
        b == is_alnum_char(c),
{
    let u: u32 = c as u32;
    (('A' as u32) <= u && u <= ('Z' as u32)) || (('a' as u32) <= u && u <= ('z' as u32)) || (('0'
        as u32) <= u && u <= ('9' as u32))
}

fn lower_char(c: char) -> (r: char)
    ensures
        r == canon_char(c),
{
    if c == '-' || c == '_' || c == '.' {
        '-'
    } else {
        let u: u32 = c as u32;
        if ('A' as u32) <= u && u <= ('Z' as u32) {
            let b: u8 = (u + 32) as u8;
            b as char
        } else {
            c
        }
    }
}

/// Validate `name` against the normalization rule and return its canonical
/// form: accepted names are lowercased and have each run of `-`, `_`, `.`
/// collapsed to one `-`; every other input is rejected with the offending
/// string.
pub fn validate_and_normalize(name: &str) -> (result: Result<String, InvalidNameError>)
    ensures
        result is Ok <==> is_valid_name(name@),
        result matches Ok(s) ==> s@ == normalize(name@),
        result matches Err(e) ==> e@ == name@,
{
    let n = name.unicode_len();
    if n == 0 {
        return Err(InvalidNameError::for_input(name));
    }
    if !check_alnum(name.get_char(0)) {
        return Err(InvalidNameError::for_input(name));
    }
    if !check_alnum(name.get_char(n - 1)) {
        return Err(InvalidNameError::for_input(name));
    }
    let mut i: usize = 0;
    while i < n
        invariant
            n == name@.len(),
            0 <= i <= n,
            forall|j: int| 0 <= j < i ==> is_allowed_char(#[trigger] name@[j]),
        decreases n - i,
    {
        let c = name.get_char(i);
        if !(check_alnum(c) || check_sep(c)) {
            assert(!is_allowed_char(name@[i as int]));
            return Err(InvalidNameError::for_input(name));
        }
        i += 1;
    }
    assert(is_valid_name(name@));
    let mut out = String::new();
    let mut prev_dash = false;
    let mut i: usize = 0;
    while i < n
        invariant
            n == name@.len(),
            is_valid_name(name@),
            0 <= i <= n,
            out@ == collapse(mapped(name@.take(i as int))),
            prev_dash == (out@.len() > 0 && out@.last() == '-'),
            i >= 1 ==> out@.len() > 0,
        decreases n - i,
    {
        let c = name.get_char(i);
        let ghost t = mapped(name@.take(i as int));
        proof {
            assert(mapped(name@.take(i + 1)) =~= t.push(canon_char(name@[i as int])));
        }
        if check_sep(c) {
            assert(i >= 1);
            proof {
                lemma_collapse_first(t);
                lemma_collapse_last(t);
                if prev_dash {
                    lemma_collapse_push_dup(t);
                } else {
                    assert(t.last() != '-');
                    lemma_collapse_push_dash(t);
                }
            }
            if !prev_dash {
                push_char(&mut out, '-');
                prev_dash = true;
            }
        } else {
            let l = lower_char(c);
            assert(l != '-');
            proof {
                lemma_collapse_push_other(t, l);
            }
            push_char(&mut out, l);
            prev_dash = false;
        }
        i += 1;
    }
    proof {
        assert(name@.take(n as int) =~= name@);
    }
    Ok(out)
}

} // verus!

