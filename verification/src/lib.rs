//! Normalized names for optional dependency sets ("extras") and the
//! `DefaultExtras` selector that picks which of them are enabled by default.
//!
//! An [`ExtraName`] can only be built through the normalizer, so every value
//! holds the canonical form of its name. [`DefaultExtras`] is either the
//! sentinel meaning "every extra" or an explicit list of names, and carries a
//! two-shape codec: the sentinel is written as the scalar string `"all"`, a
//! list as a sequence of canonical strings.

pub mod default_extras;
pub mod extra_name;
pub mod normalize;

pub use default_extras::DefaultExtras;
pub use default_extras::DefaultExtrasError;
pub use default_extras::ExtrasRepr;
pub use extra_name::ExtraName;
pub use normalize::InvalidNameError;
