//! The blank template data type: the stock top-level record type that the
//! alias `"Prefab"` is bound to.  It has no fields and its construct step
//! does nothing.

use vstd::prelude::*;

use crate::values::Schema;

verus! {

/// The stable identifier of [`BlankPrefab`].
pub const BLANK_PREFAB_UUID: u128 = 0x3c603f249a8945c38f4a087a28f006df;

/// The type tag reserved for [`BlankPrefab`].
pub const BLANK_PREFAB_TAG: u64 = 0;

/// A template data type with no fields: documents under the stock alias
/// `"Prefab"` carry no top-level data of their own.
#[derive(Debug, Clone, Copy, PartialEq, Eq, Structural)]
pub struct BlankPrefab;

impl BlankPrefab {
    /// The empty field layout.
    pub fn schema() -> (r: Schema)
        ensures
            r@.fields.len() == 0,
    {
        let r = Schema { fields: Vec::new() };
        proof {
            assert(r@.fields =~= Seq::<crate::values::FieldSchemaV>::empty());
        }
        r
    }
}

} // verus!
