//! The per-object flag bits and the two-state indexing machine they encode.
//!
//! An object is `raw` (not searchable, never indexed), `searchable but not
//! yet indexed` (eligible for the background indexing scheduler), or
//! `searchable and indexed` (terminal). Flags only ever gain bits.

use vstd::prelude::*;

use crate::strutil::str_eq;

verus! {

/// This object has been text-extracted and written to the search index.
pub const COF_INDEXED: u64 = 1;

/// This object's content type is eligible for text extraction.
pub const COF_SEARCHABLE: u64 = 2;

/// Bit `bit` is set in `flags`.
pub open spec fn flag_set(flags: u64, bit: u64) -> bool {
    flags & bit == bit
}

/// The content types the thumbnail and extraction pipelines accept.
pub open spec fn spec_supported_image_type(ct: Seq<char>) -> bool {
    ct == "image/jpeg"@ || ct == "image/jpg"@ || ct == "image/png"@ || ct == "image/webp"@
}

/// The flags a freshly created object receives from its content type.
pub open spec fn spec_initial_flags(ct: Seq<char>) -> u64 {
    if spec_supported_image_type(ct) {
        COF_SEARCHABLE
    } else {
        0
    }
}

/// Searchable and not yet indexed: exactly the objects one scheduler tick
/// selects.
pub open spec fn spec_eligible_for_indexing(flags: u64) -> bool {
    flag_set(flags, COF_SEARCHABLE) && !flag_set(flags, COF_INDEXED)
}

/// The state an object's flag bits encode.
#[derive(PartialEq, Eq, Structural, Clone, Copy, Debug)]
pub enum ObjectState {
    /// Not searchable; the scheduler never touches it.
    Raw,
    /// Searchable, awaiting extraction and indexing.
    SearchableUnindexed,
    /// Extracted and indexed; terminal.
    SearchableIndexed,
}

pub open spec fn spec_state_of(flags: u64) -> ObjectState {
    if !flag_set(flags, COF_SEARCHABLE) {
        ObjectState::Raw
    } else if flag_set(flags, COF_INDEXED) {
        ObjectState::SearchableIndexed
    } else {
        ObjectState::SearchableUnindexed
    }
}

/// Is this content type on the supported-image allowlist?
pub fn is_supported_image_type(ct: &str) -> (r: bool)
    ensures
        r == spec_supported_image_type(ct@),
{
    str_eq(ct, "image/jpeg") || str_eq(ct, "image/jpg") || str_eq(ct, "image/png") || str_eq(
        ct,
        "image/webp",
    )
}

/// The flags a new catalog row gets: `COF_SEARCHABLE` exactly for supported
/// image types, no bits otherwise.
pub fn initial_flags(ct: &str) -> (r: u64)
    ensures
        r == spec_initial_flags(ct@),
        flag_set(r, COF_SEARCHABLE) <==> spec_supported_image_type(ct@),
        !flag_set(r, COF_INDEXED),
{
    proof {
        lemma_flag_bits();
    }
    if is_supported_image_type(ct) {
        COF_SEARCHABLE
    } else {
        0
    }
}

/// Decides scheduler eligibility from the flag bits.
pub fn eligible_for_indexing(flags: u64) -> (r: bool)
    ensures
        r == spec_eligible_for_indexing(flags),
{
    proof {
        lemma_indexed_bit_cases(flags);
    }
    flags & COF_SEARCHABLE == COF_SEARCHABLE && flags & COF_INDEXED == 0
}

/// The explicit state of the indexing machine for the given flags.
pub fn state_of(flags: u64) -> (s: ObjectState)
    ensures
        s == spec_state_of(flags),
{
    proof {
        lemma_indexed_bit_cases(flags);
    }
    if flags & COF_SEARCHABLE != COF_SEARCHABLE {
        ObjectState::Raw
    } else if flags & COF_INDEXED == COF_INDEXED {
        ObjectState::SearchableIndexed
    } else {
        ObjectState::SearchableUnindexed
    }
}

/// The low flag bit is either wholly set or wholly clear.
pub proof fn lemma_indexed_bit_cases(flags: u64)
    ensures
        flags & COF_INDEXED == COF_INDEXED || flags & COF_INDEXED == 0,
{
    assert(flags & 1u64 == 1u64 || flags & 1u64 == 0u64) by (bit_vector);
}

/// Values of the two named bits on themselves and on each other.
pub proof fn lemma_flag_bits()
    ensures
        flag_set(COF_SEARCHABLE, COF_SEARCHABLE),
        !flag_set(COF_SEARCHABLE, COF_INDEXED),
        !flag_set(0, COF_SEARCHABLE),
        !flag_set(0, COF_INDEXED),
        spec_eligible_for_indexing(COF_SEARCHABLE),
        !spec_eligible_for_indexing(0),
{
    assert(2u64 & 2u64 == 2u64) by (bit_vector);
    assert(2u64 & 1u64 == 0u64) by (bit_vector);
    assert(0u64 & 2u64 == 0u64) by (bit_vector);
    assert(0u64 & 1u64 == 0u64) by (bit_vector);
}

/// Adding bits with `|` never clears a bit: flags grow monotonically.
pub proof fn lemma_or_keeps_bits(flags: u64, added: u64, bit: u64)
    ensures
        flag_set(flags, bit) ==> flag_set(flags | added, bit),
        flag_set(added, bit) ==> flag_set(flags | added, bit),
{
    assert(flags & bit == bit ==> (flags | added) & bit == bit) by (bit_vector);
    assert(added & bit == bit ==> (flags | added) & bit == bit) by (bit_vector);
}

/// OR-ing in bits that avoid `bit` leaves `bit` exactly as it was.
pub proof fn lemma_or_without_bit(flags: u64, added: u64, bit: u64)
    requires
        added & bit == 0,
    ensures
        (flags | added) & bit == flags & bit,
{
    assert(added & bit == 0 ==> (flags | added) & bit == flags & bit) by (bit_vector);
}

/// What setting `COF_INDEXED` does to the two named bits.
pub proof fn lemma_set_indexed(flags: u64)
    ensures
        flag_set(flags | COF_INDEXED, COF_INDEXED),
        flag_set(flags | COF_INDEXED, COF_SEARCHABLE) == flag_set(flags, COF_SEARCHABLE),
        !spec_eligible_for_indexing(flags | COF_INDEXED),
{
    assert((flags | 1u64) & 1u64 == 1u64) by (bit_vector);
    assert((flags | 1u64) & 2u64 == flags & 2u64) by (bit_vector);
}

} // verus!
