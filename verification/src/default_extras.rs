//! The selector for the extras that are enabled by default, and its two-shape
//! wire form: the sentinel `"all"` is written as a single string scalar, an
//! explicit list as a sequence of canonical strings.

use vstd::prelude::*;
use vstd::string::*;

use crate::extra_name::ExtraName;
use crate::normalize::invalid_name_message;
use crate::normalize::is_canonical_name;
use crate::normalize::is_valid_name;
use crate::normalize::normalize;
use crate::normalize::InvalidNameError;

verus! {

/// Either the literal "all" or a list of extras.
#[derive(Debug, Clone, PartialEq, Eq, Hash, PartialOrd, Ord)]
pub enum DefaultExtras {
    /// All extras are defaulted.
    All,
    /// A list of extras, order preserved, duplicates kept.
    List(Vec<ExtraName>),
}

/// The value of a `DefaultExtras`, for specification: the sentinel, or the
/// sequence of the names' characters.
pub enum ExtrasModel {
    All,
    Names(Seq<Seq<char>>),
}

impl View for DefaultExtras {
    type V = ExtrasModel;

    open spec fn view(&self) -> ExtrasModel {
        match self {
            DefaultExtras::All => ExtrasModel::All,
            DefaultExtras::List(v) => ExtrasModel::Names(v@.map(|i: int, e: ExtraName| e@)),
        }
    }
}

/// One value of the two-shape wire form: a single string scalar, or a
/// sequence of strings.
#[derive(Debug, Clone, PartialEq)]
pub enum ExtrasRepr {
    /// A single string scalar.
    Scalar(String),
    /// A sequence of strings.
    Sequence(Vec<String>),
}

/// The value of an `ExtrasRepr`, for specification.
pub enum ReprModel {
    Scalar(Seq<char>),
    Sequence(Seq<Seq<char>>),
}

impl View for ExtrasRepr {
    type V = ReprModel;

    open spec fn view(&self) -> ReprModel {
        match self {
            ExtrasRepr::Scalar(s) => ReprModel::Scalar(s@),
            ExtrasRepr::Sequence(v) => ReprModel::Sequence(v@.map(|i: int, s: String| s@)),
        }
    }
}

/// The wire form of a value: the sentinel becomes the scalar `"all"`, a list
/// becomes the sequence of its names, order preserved.
pub open spec fn encoded(m: ExtrasModel) -> ReprModel {
    match m {
        ExtrasModel::All => ReprModel::Scalar("all"@),
        ExtrasModel::Names(ns) => ReprModel::Sequence(ns),
    }
}

/// True when the codec accepts a wire form: a scalar must be exactly `"all"`,
/// and every element of a sequence must be a name the normalizer accepts.
pub open spec fn decode_ok(r: ReprModel) -> bool {
    match r {
        ReprModel::Scalar(s) => s == "all"@,
        ReprModel::Sequence(xs) => forall|i: int|
            0 <= i < xs.len() ==> is_valid_name(#[trigger] xs[i]),
    }
}

/// The value an accepted wire form decodes to: the scalar gives the sentinel,
/// a sequence gives the list of its elements, each normalized, in order.
pub open spec fn decoded(r: ReprModel) -> ExtrasModel {
    match r {
        ReprModel::Scalar(_) => ExtrasModel::All,
        ReprModel::Sequence(xs) => ExtrasModel::Names(
            xs.map(|i: int, x: Seq<char>| normalize(x)),
        ),
    }
}

/// The position of the first sequence element the normalizer rejects.
pub open spec fn first_invalid(xs: Seq<Seq<char>>) -> int
    decreases xs.len(),
{
    if xs.len() == 0 {
        0
    } else if !is_valid_name(xs[0]) {
        0
    } else {
        1 + first_invalid(xs.drop_first())
    }
}

proof fn lemma_first_invalid(xs: Seq<Seq<char>>, k: int)
    requires
        0 <= k < xs.len(),
        forall|j: int| 0 <= j < k ==> is_valid_name(#[trigger] xs[j]),
        !is_valid_name(xs[k]),
    ensures
        first_invalid(xs) == k,
    decreases k,
{
    if k == 0 {
    } else {
        assert(forall|j: int|
            0 <= j < k - 1 ==> is_valid_name(#[trigger] xs.drop_first()[j]));
        lemma_first_invalid(xs.drop_first(), k - 1);
    }
}

/// Why a wire value was rejected by the codec.
#[derive(Debug, Clone)]
pub enum DefaultExtrasError {
    /// A scalar string other than `"all"`.
    Sentinel,
    /// A sequence element that the normalizer rejects.
    Element(InvalidNameError),
}

impl DefaultExtrasError {
    /// The user-visible message: a fixed sentence for a bad sentinel, and the
    /// normalizer's diagnostic for a bad element.
    pub fn message(&self) -> (r: String)
        ensures
            self is Sentinel ==> r@ == "default-extras must be \"all\" or a [\"list\", \"of\", \"extras\"]"@,
            self matches DefaultExtrasError::Element(e) ==> r@ == invalid_name_message(e@),
    {
        match self {
            DefaultExtrasError::Sentinel => (
            "default-extras must be \"all\" or a [\"list\", \"of\", \"extras\"]").to_owned(),
            DefaultExtrasError::Element(e) => e.message(),
        }
    }
}

impl DefaultExtras {
    /// Well-formed: every name in the list is canonical.
    pub open spec fn wf(&self) -> bool {
        match self {
            DefaultExtras::All => true,
            DefaultExtras::List(v) => forall|i: int|
                0 <= i < v@.len() ==> (#[trigger] v@[i]).wf(),
        }
    }

    /// Encode this value into the wire form: `All` as the scalar `"all"`, a
    /// list as the sequence of its canonical strings, order preserved,
    /// duplicates kept, the empty list as an empty sequence distinct from the
    /// sentinel.
    pub fn to_repr(&self) -> (r: ExtrasRepr)
        ensures
            r@ == encoded(self@),
    {
        match self {
            DefaultExtras::All => ExtrasRepr::Scalar("all".to_owned()),
            DefaultExtras::List(v) => {
                let mut items: Vec<String> = Vec::new();
                let mut i: usize = 0;
                while i < v.len()
                    invariant
                        0 <= i <= v@.len(),
                        items@.len() == i,
                        forall|j: int| 0 <= j < i ==> (#[trigger] items@[j])@ == v@[j]@,
                    decreases v@.len() - i,
                {
                    items.push(v[i].as_str().to_owned());
                    i += 1;
                }
                let r = ExtrasRepr::Sequence(items);
                proof {
                    assert(items@.map(|k: int, s: String| s@) =~= v@.map(
                        |k: int, e: ExtraName| e@,
                    ));
                }
                r
            },
        }
    }

    /// Decode a wire form. A scalar must be exactly the sentinel `"all"`; a
    /// sequence is parsed element by element through the normalizer, stopping
    /// at the first rejected element. A sequence containing `"all"` is a list
    /// of one name, not the sentinel.
    pub fn from_repr(repr: &ExtrasRepr) -> (result: Result<DefaultExtras, DefaultExtrasError>)
        ensures
            result is Ok <==> decode_ok(repr@),
            result matches Ok(d) ==> d@ == decoded(repr@) && d.wf(),
            result matches Err(e) ==> match repr@ {
                ReprModel::Scalar(t) => t != "all"@ && e is Sentinel,
                ReprModel::Sequence(xs) => (e matches DefaultExtrasError::Element(err)
                    && err@ == xs[first_invalid(xs)] && !is_valid_name(xs[first_invalid(xs)])),
            },
    {
        match repr {
            ExtrasRepr::Scalar(s) => {
                let sentinel = "all".to_owned();
                if *s == sentinel {
                    Ok(DefaultExtras::All)
                } else {
                    Err(DefaultExtrasError::Sentinel)
                }
            },
            ExtrasRepr::Sequence(items) => {
                let ghost xs = items@.map(|k: int, s: String| s@);
                let mut names: Vec<ExtraName> = Vec::new();
                let mut i: usize = 0;
                while i < items.len()
                    invariant
                        0 <= i <= items@.len(),
                        repr@ == ReprModel::Sequence(xs),
                        xs == items@.map(|k: int, s: String| s@),
                        xs.len() == items@.len(),
                        names@.len() == i,
                        forall|j: int| 0 <= j < i ==> is_valid_name(#[trigger] xs[j]),
                        forall|j: int|
                            0 <= j < i ==> (#[trigger] names@[j])@ == normalize(xs[j]),
                        forall|j: int| 0 <= j < i ==> (#[trigger] names@[j]).wf(),
                    decreases items@.len() - i,
                {
                    assert(xs[i as int] == items@[i as int]@);
                    match ExtraName::from_str(items[i].as_str()) {
                        Ok(x) => {
                            names.push(x);
                        },
                        Err(e) => {
                            proof {
                                lemma_first_invalid(xs, i as int);
                                assert(!is_valid_name(xs[i as int]));
                                assert(!decode_ok(repr@));
                            }
                            return Err(DefaultExtrasError::Element(e));
                        },
                    }
                    i += 1;
                }
                let d = DefaultExtras::List(names);
                proof {
                    assert(names@.map(|k: int, e: ExtraName| e@) =~= xs.map(
                        |k: int, x: Seq<char>| normalize(x),
                    ));
                }
                Ok(d)
            },
        }
    }
}

impl Default for DefaultExtras {
    /// The default selector: the empty list, which stays distinct from `All`.
    fn default() -> (d: Self)
        ensures
            d@ == ExtrasModel::Names(Seq::<Seq<char>>::empty()),
            d.wf(),
    {
        let d = DefaultExtras::List(Vec::new());
        proof {
            assert(Seq::<ExtraName>::empty().map(|i: int, e: ExtraName| e@) =~= Seq::<
                Seq<char>,
            >::empty());
        }
        d
    }
}

/// Law: the codec round-trips. Encoding the sentinel, or any sequence of
/// canonical names, yields a wire form the decoder accepts, and decoding
/// gives the value back unchanged — in particular `All` and the empty list
/// stay distinct, since they encode to a scalar and to an empty sequence.
pub proof fn lemma_codec_round_trip(m: ExtrasModel)
    requires
        m matches ExtrasModel::Names(ns) ==> forall|i: int|
            0 <= i < ns.len() ==> is_canonical_name(#[trigger] ns[i]),
    ensures
        decode_ok(encoded(m)),
        decoded(encoded(m)) == m,
{
    match m {
        ExtrasModel::All => {
        },
        ExtrasModel::Names(ns) => {
            assert(forall|i: int| 0 <= i < ns.len() ==> is_valid_name(#[trigger] ns[i]));
            assert(ns.map(|i: int, x: Seq<char>| normalize(x)) =~= ns);
        },
    }
}

/// Law (round trip on values): a well-formed `DefaultExtras` decodes from its
/// own encoding to an equal value.
pub proof fn lemma_default_extras_round_trip(d: &DefaultExtras)
    requires
        d.wf(),
    ensures
        decode_ok(encoded(d@)),
        decoded(encoded(d@)) == d@,
{
    match d {
        DefaultExtras::All => {
            lemma_codec_round_trip(d@);
        },
        DefaultExtras::List(v) => {
            let ns = v@.map(|i: int, e: ExtraName| e@);
            assert forall|i: int| 0 <= i < ns.len() implies is_canonical_name(
                #[trigger] ns[i],
            ) by {
                assert(v@[i].wf());
                assert(ns[i] == v@[i]@);
            }
            lemma_codec_round_trip(d@);
        },
    }
}

} // verus!
