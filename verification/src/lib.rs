//! Nonce mining for balanced-ternary multi-signature bundles.
//!
//! A raw 243-trit bundle hash is normalized into three 27-tryte security
//! fragments whose values each sum to zero; two normalized digests are
//! combined digit-wise into a worst-case digest; candidates whose digest
//! holds a digit at the unsafe extreme are rejected outright.

use vstd::prelude::*;

pub mod combine;
pub mod encode;
pub mod model;
pub mod normalize;
pub mod search;

verus! {

/// Number of trits that form one tryte value.
pub const TRYTE_WIDTH: usize = 3;

/// The unsafe extreme of a tryte value: a digit here reveals a full key fragment.
pub const MAX_TRYTE_VALUE: i8 = 13;

/// The safe extreme of a tryte value.
pub const MIN_TRYTE_VALUE: i8 = -13;

/// Security fragments per normalized bundle digest.
pub const NUMBER_OF_SECURITY_LEVELS: usize = 3;

/// Tryte values per security fragment.
pub const NORMALIZED_FRAGMENT_LENGTH: usize = 27;

/// Tryte values per normalized bundle digest.
pub const NORMALIZED_BUNDLE_LENGTH: usize = NORMALIZED_FRAGMENT_LENGTH * NUMBER_OF_SECURITY_LEVELS;

/// Trits per raw bundle hash.
pub const HASH_LENGTH: usize = 243;

/// First trit of the nonce region inside an essence buffer.
pub const OBSOLETE_TAG_OFFSET: usize = 243 + 81;

/// Number of trits of the nonce region.
pub const OBSOLETE_TAG_LENGTH: usize = 81;

} // verus!
