//! The normalized name of one extra dependency set.

use vstd::prelude::*;
use vstd::string::*;

use core::cmp::Ordering;

use vstd::std_specs::cmp::PartialEqSpec;
use vstd::std_specs::cmp::PartialOrdSpec;

use crate::normalize::is_canon_char;
use crate::normalize::is_canonical_name;
use crate::normalize::is_valid_name;
use crate::normalize::lemma_normalize_canonical;
use crate::normalize::normalize;
use crate::normalize::validate_and_normalize;
use crate::normalize::InvalidNameError;

verus! {

/// A validated, normalized extra name.
///
/// A value can only be built through the normalizer, so it always holds the
/// canonical form: lowercase, with every run of `-`, `_` and `.` collapsed to
/// a single `-`. Equality and ordering go by the canonical characters.
#[derive(Debug, Eq, Hash, Ord)]
pub struct ExtraName(String);

impl View for ExtraName {
    type V = Seq<char>;

    closed spec fn view(&self) -> Seq<char> {
        self.0@
    }
}

impl ExtraName {
    /// The value invariant: the stored name is a fixed point of normalization.
    pub open spec fn wf(&self) -> bool {
        is_canonical_name(self@)
    }

    /// Create a validated, normalized extra name from a borrowed string.
    pub fn from_str(name: &str) -> (result: Result<ExtraName, InvalidNameError>)
        ensures
            result is Ok <==> is_valid_name(name@),
            result matches Ok(x) ==> x@ == normalize(name@) && x.wf(),
            result matches Err(e) ==> e@ == name@,
    {
        match validate_and_normalize(name) {
            Ok(s) => {
                proof {
                    lemma_normalize_canonical(name@);
                }
                Ok(ExtraName(s))
            },
            Err(e) => Err(e),
        }
    }

    /// Create a validated, normalized extra name from an owned string; the
    /// contract is that of [`ExtraName::from_str`].
    pub fn from_owned(name: String) -> (result: Result<ExtraName, InvalidNameError>)
        ensures
            result is Ok <==> is_valid_name(name@),
            result matches Ok(x) ==> x@ == normalize(name@) && x.wf(),
            result matches Err(e) ==> e@ == name@,
    {
        ExtraName::from_str(name.as_str())
    }

    /// Return the underlying extra name as a string.
    pub fn as_str(&self) -> (r: &str)
        ensures
            r@ == self@,
    {
        self.0.as_str()
    }
}

/// Law: every extra name is its own canonical form, so feeding a name's
/// string back to the normalizer accepts it and returns it unchanged. With
/// the contract of [`ExtraName::from_str`] this gives both idempotence
/// (`from_str(x.as_str())` is `Ok` of an equal value) and the string
/// round trip (serializing a name and parsing it again gives the name back).
pub proof fn lemma_extra_name_round_trip(x: &ExtraName)
    requires
        x.wf(),
    ensures
        is_valid_name(x@),
        normalize(x@) == x@,
{
}

impl Clone for ExtraName {
    /// A clone carries the same canonical name.
    fn clone(&self) -> (res: Self)
        ensures
            res == *self,
    {
        ExtraName(self.0.clone())
    }
}

impl PartialEq for ExtraName {
    fn eq(&self, other: &Self) -> (r: bool) {
        self.0 == other.0
    }
}

impl vstd::std_specs::cmp::PartialEqSpecImpl for ExtraName {
    open spec fn obeys_eq_spec() -> bool {
        true
    }

    open spec fn eq_spec(&self, other: &Self) -> bool {
        self@ == other@
    }
}

/// The order of two names: lexicographic over the characters' scalar values,
/// with a proper prefix ordered first.
pub open spec fn lex_cmp(a: Seq<char>, b: Seq<char>) -> Ordering
    decreases a.len(),
{
    if a.len() == 0 && b.len() == 0 {
        Ordering::Equal
    } else if a.len() == 0 {
        Ordering::Less
    } else if b.len() == 0 {
        Ordering::Greater
    } else if (a[0] as u32) < (b[0] as u32) {
        Ordering::Less
    } else if (a[0] as u32) > (b[0] as u32) {
        Ordering::Greater
    } else {
        lex_cmp(a.drop_first(), b.drop_first())
    }
}

fn cmp_chars(a: &str, b: &str) -> (r: Ordering)
    ensures
        r == lex_cmp(a@, b@),
{
    let an = a.unicode_len();
    let bn = b.unicode_len();
    let mut i: usize = 0;
    proof {
        assert(a@.skip(0) =~= a@);
        assert(b@.skip(0) =~= b@);
    }
    while i < an && i < bn
        invariant
            an == a@.len(),
            bn == b@.len(),
            0 <= i <= an,
            0 <= i <= bn,
            lex_cmp(a@, b@) == lex_cmp(a@.skip(i as int), b@.skip(i as int)),
        decreases an - i,
    {
        let ca = a.get_char(i);
        let cb = b.get_char(i);
        proof {
            assert(a@.skip(i as int)[0] == ca);
            assert(b@.skip(i as int)[0] == cb);
        }
        if (ca as u32) < (cb as u32) {
            return Ordering::Less;
        }
        if (ca as u32) > (cb as u32) {
            return Ordering::Greater;
        }
        proof {
            assert(a@.skip(i as int).drop_first() =~= a@.skip(i + 1));
            assert(b@.skip(i as int).drop_first() =~= b@.skip(i + 1));
        }
        i += 1;
    }
    proof {
        assert(i == an || i == bn);
    }
    if an == bn {
        proof {
            assert(a@.skip(i as int).len() == 0 && b@.skip(i as int).len() == 0);
        }
        Ordering::Equal
    } else if an < bn {
        proof {
            assert(a@.skip(i as int).len() == 0 && b@.skip(i as int).len() > 0);
        }
        Ordering::Less
    } else {
        proof {
            assert(b@.skip(i as int).len() == 0 && a@.skip(i as int).len() > 0);
        }
        Ordering::Greater
    }
}

impl PartialOrd for ExtraName {
    fn partial_cmp(&self, other: &Self) -> (r: Option<Ordering>) {
        Some(cmp_chars(self.0.as_str(), other.0.as_str()))
    }
}

impl vstd::std_specs::cmp::PartialOrdSpecImpl for ExtraName {
    open spec fn obeys_partial_cmp_spec() -> bool {
        true
    }

    open spec fn partial_cmp_spec(&self, other: &Self) -> Option<Ordering> {
        Some(lex_cmp(self@, other@))
    }
}

/// Law: `<`, `==` and `>` on extra names follow one total order. The
/// comparison behind `partial_cmp` always answers, answers `Equal` exactly on
/// names that `==` calls equal, and swaps `Less` and `Greater` with its
/// arguments, so for any two names exactly one of the three holds.
pub proof fn lemma_order_total(x: &ExtraName, y: &ExtraName)
    ensures
        x.partial_cmp_spec(y) == Some(lex_cmp(x@, y@)),
        lex_cmp(x@, y@) == Ordering::Equal <==> x.eq_spec(y),
        lex_cmp(x@, y@) == Ordering::Less <==> lex_cmp(y@, x@) == Ordering::Greater,
{
    lemma_lex_cmp_eq(x@, y@);
    lemma_lex_cmp_flip(x@, y@);
}

/// Law: the comparison reports `Equal` exactly on equal character sequences,
/// so `==` and the order agree.
pub proof fn lemma_lex_cmp_eq(a: Seq<char>, b: Seq<char>)
    ensures
        lex_cmp(a, b) == Ordering::Equal <==> a == b,
    decreases a.len(),
{
    if a.len() == 0 && b.len() == 0 {
        assert(a =~= b);
    } else if a.len() == 0 || b.len() == 0 {
    } else {
        vstd::utf8::char_u32_cast(a[0], a[0] as u32);
        vstd::utf8::char_u32_cast(b[0], b[0] as u32);
        lemma_lex_cmp_eq(a.drop_first(), b.drop_first());
        let da = a.drop_first();
        let db = b.drop_first();
        if lex_cmp(a, b) == Ordering::Equal {
            assert(a[0] == b[0]);
            assert(da == db);
            assert(a.len() == b.len());
            assert forall|i: int| 0 <= i < a.len() implies a[i] == #[trigger] b[i] by {
                if i > 0 {
                    assert(a[i] == da[i - 1]);
                    assert(b[i] == db[i - 1]);
                }
            }
            assert(a =~= b);
        }
        if a == b {
            assert(da =~= db);
        }
    }
}

/// Law: the comparison is antisymmetric; swapping the arguments swaps `Less`
/// and `Greater`. With [`lemma_lex_cmp_eq`] this makes the order total: for
/// any two names exactly one of `<`, `==`, `>` holds.
pub proof fn lemma_lex_cmp_flip(a: Seq<char>, b: Seq<char>)
    ensures
        lex_cmp(a, b) == Ordering::Less <==> lex_cmp(b, a) == Ordering::Greater,
        lex_cmp(a, b) == Ordering::Equal <==> lex_cmp(b, a) == Ordering::Equal,
    decreases a.len(),
{
    if a.len() == 0 || b.len() == 0 {
    } else {
        lemma_lex_cmp_flip(a.drop_first(), b.drop_first());
    }
}

/// Law: the order is transitive.
pub proof fn lemma_lex_cmp_trans(a: Seq<char>, b: Seq<char>, c: Seq<char>)
    requires
        lex_cmp(a, b) == Ordering::Less,
        lex_cmp(b, c) == Ordering::Less,
    ensures
        lex_cmp(a, c) == Ordering::Less,
    decreases a.len(),
{
    if a.len() == 0 {
    } else {
        if (a[0] as u32) == (b[0] as u32) && (b[0] as u32) == (c[0] as u32) {
            lemma_lex_cmp_trans(a.drop_first(), b.drop_first(), c.drop_first());
        }
    }
}

/// The same order over byte sequences.
pub open spec fn lex_cmp_bytes(a: Seq<u8>, b: Seq<u8>) -> Ordering
    decreases a.len(),
{
    if a.len() == 0 && b.len() == 0 {
        Ordering::Equal
    } else if a.len() == 0 {
        Ordering::Less
    } else if b.len() == 0 {
        Ordering::Greater
    } else if a[0] < b[0] {
        Ordering::Less
    } else if a[0] > b[0] {
        Ordering::Greater
    } else {
        lex_cmp_bytes(a.drop_first(), b.drop_first())
    }
}

proof fn lemma_lex_cmp_ascii(a: Seq<char>, b: Seq<char>)
    requires
        vstd::utf8::is_ascii_chars(a),
        vstd::utf8::is_ascii_chars(b),
    ensures
        lex_cmp(a, b) == lex_cmp_bytes(vstd::utf8::encode_utf8(a), vstd::utf8::encode_utf8(b)),
    decreases a.len(),
{
    vstd::utf8::is_ascii_chars_encode_utf8(a);
    vstd::utf8::is_ascii_chars_encode_utf8(b);
    let ea = vstd::utf8::encode_utf8(a);
    let eb = vstd::utf8::encode_utf8(b);
    if a.len() == 0 || b.len() == 0 {
    } else {
        assert(ea[0] == a[0] as u8 && eb[0] == b[0] as u8);
        assert(vstd::utf8::is_ascii_chars(a.drop_first()));
        assert(vstd::utf8::is_ascii_chars(b.drop_first()));
        lemma_lex_cmp_ascii(a.drop_first(), b.drop_first());
        vstd::utf8::is_ascii_chars_encode_utf8(a.drop_first());
        vstd::utf8::is_ascii_chars_encode_utf8(b.drop_first());
        assert(vstd::utf8::encode_utf8(a.drop_first()) =~= ea.drop_first());
        assert(vstd::utf8::encode_utf8(b.drop_first()) =~= eb.drop_first());
    }
}

/// Law: on extra names the order is exactly byte-lexicographic order of the
/// UTF-8 bytes behind `as_str`; canonical names are ASCII, where character
/// order and byte order coincide.
pub proof fn lemma_cmp_is_byte_order(x: &ExtraName, y: &ExtraName)
    requires
        x.wf(),
        y.wf(),
    ensures
        x.partial_cmp_spec(y) == Some(
            lex_cmp_bytes(vstd::utf8::encode_utf8(x@), vstd::utf8::encode_utf8(y@)),
        ),
{
    lemma_canonical_is_ascii(x@);
    lemma_canonical_is_ascii(y@);
    lemma_lex_cmp_ascii(x@, y@);
}

proof fn lemma_canonical_is_ascii(s: Seq<char>)
    requires
        is_canonical_name(s),
    ensures
        vstd::utf8::is_ascii_chars(s),
{
    crate::normalize::lemma_canonical_chars(s);
    assert forall|i: int| 0 <= i < s.len() implies '\0' <= #[trigger] s[i] <= '\u{7f}' by {
        let c = s[i];
        assert(is_canon_char(c));
        vstd::utf8::char_u32_cast(c, c as u32);
        assert((c as u32) <= 127);
    }
}

} // verus!

