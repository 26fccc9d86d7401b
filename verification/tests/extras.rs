use extra_names::DefaultExtras;
use extra_names::DefaultExtrasError;
use extra_names::ExtraName;
use extra_names::ExtrasRepr;
use extra_names::InvalidNameError;

fn name(s: &str) -> ExtraName {
    ExtraName::from_str(s).unwrap()
}

#[test]
fn normalization_collapse() {
    let x = name("Foo__Bar.--baz");
    assert_eq!(x.as_str(), "foo-bar-baz");
}

#[test]
fn normalization_idempotent() {
    let x = name("foo-bar-baz");
    assert_eq!(x.as_str(), "foo-bar-baz");
    assert_eq!(ExtraName::from_str(x.as_str()), Ok(x.clone()));
}

#[test]
fn reparse_gives_equal_name() {
    for s in ["X", "a.b", "A__B", "x2", "0-9", "T.E.S.T"] {
        let x = name(s);
        let y = ExtraName::from_str(x.as_str()).unwrap();
        assert_eq!(y, x);
        assert_eq!(y.as_str(), x.as_str());
    }
}

#[test]
fn from_owned_matches_from_str() {
    let a = ExtraName::from_owned(String::from("Dev_Tools")).unwrap();
    let b = name("Dev_Tools");
    assert_eq!(a, b);
    assert_eq!(a.as_str(), "dev-tools");
    assert!(ExtraName::from_owned(String::from("-x")).is_err());
}

#[test]
fn rejection() {
    let e: InvalidNameError = ExtraName::from_str("").unwrap_err();
    assert_eq!(e.input(), "");
    let e = ExtraName::from_str("has space").unwrap_err();
    assert_eq!(e.input(), "has space");
    assert!(ExtraName::from_str("-leading").is_err());
    assert!(ExtraName::from_str("trailing.").is_err());
    assert!(ExtraName::from_str("...").is_err());
    assert!(ExtraName::from_str("na\u{ef}ve").is_err());
}

#[test]
fn invalid_name_message_names_the_input() {
    let e = ExtraName::from_str("b@d").unwrap_err();
    assert_eq!(
        e.message(),
        "Not a valid package or extra name: \"b@d\". Names must start and end \
         with a letter or digit and may only contain -, _, ., and alphanumeric characters"
    );
}

#[test]
fn ordering_is_total_and_bytewise() {
    let a = name("alpha");
    let b = name("beta");
    let c = name("beta2");
    assert!(a < b);
    assert!(b > a);
    assert!(!(b < a));
    assert!(a < c && b < c);
    assert_eq!(a, a.clone());
    assert!(!(a < a) && !(a > a));
    // consistent with byte-lexicographic order of as_str()
    for (x, y) in [(&a, &b), (&b, &c), (&a, &c)] {
        assert_eq!(x < y, x.as_str().as_bytes() < y.as_str().as_bytes());
        assert_eq!(x.cmp(y), x.as_str().as_bytes().cmp(y.as_str().as_bytes()));
    }
    // a proper prefix orders first
    let p = name("bet");
    assert!(p < b);
}

#[test]
fn sentinel_deserialize() {
    let r = DefaultExtras::from_repr(&ExtrasRepr::Scalar(String::from("all")));
    assert_eq!(r.unwrap(), DefaultExtras::All);
    let e = DefaultExtras::from_repr(&ExtrasRepr::Scalar(String::from("ALL"))).unwrap_err();
    assert!(matches!(e, DefaultExtrasError::Sentinel));
    assert_eq!(
        e.message(),
        "default-extras must be \"all\" or a [\"list\", \"of\", \"extras\"]"
    );
}

#[test]
fn sequence_deserialize() {
    let repr = ExtrasRepr::Sequence(vec![String::from("Foo"), String::from("bar_baz")]);
    let d = DefaultExtras::from_repr(&repr).unwrap();
    assert_eq!(d, DefaultExtras::List(vec![name("foo"), name("bar-baz")]));
}

#[test]
fn sequence_element_error() {
    let repr = ExtrasRepr::Sequence(vec![String::from("ok"), String::from("b@d")]);
    let e = DefaultExtras::from_repr(&repr).unwrap_err();
    match e {
        DefaultExtrasError::Element(err) => assert_eq!(err.input(), "b@d"),
        DefaultExtrasError::Sentinel => panic!("expected an element error"),
    }
}

#[test]
fn distinct_empties() {
    let all = DefaultExtras::All;
    let empty = DefaultExtras::List(Vec::new());
    assert_ne!(all, empty);
    assert_eq!(all.to_repr(), ExtrasRepr::Scalar(String::from("all")));
    assert_eq!(empty.to_repr(), ExtrasRepr::Sequence(Vec::new()));
    assert_eq!(DefaultExtras::from_repr(&all.to_repr()).unwrap(), all);
    assert_eq!(DefaultExtras::from_repr(&empty.to_repr()).unwrap(), empty);
}

#[test]
fn round_trip_preserves_order_and_duplicates() {
    let d = DefaultExtras::List(vec![name("b"), name("a"), name("b")]);
    let repr = d.to_repr();
    assert_eq!(
        repr,
        ExtrasRepr::Sequence(vec![
            String::from("b"),
            String::from("a"),
            String::from("b"),
        ])
    );
    assert_eq!(DefaultExtras::from_repr(&repr).unwrap(), d);
}

#[test]
fn sequence_containing_all_is_a_list() {
    let repr = ExtrasRepr::Sequence(vec![String::from("all")]);
    let d = DefaultExtras::from_repr(&repr).unwrap();
    assert_eq!(d, DefaultExtras::List(vec![name("all")]));
    assert_ne!(d, DefaultExtras::All);
}

#[test]
fn default_is_the_empty_list() {
    let d = DefaultExtras::default();
    assert_eq!(d, DefaultExtras::List(Vec::new()));
    assert_ne!(d, DefaultExtras::All);
}
