//! What the plugin says of itself to the host.

use vstd::prelude::*;

verus! {

/// The version of the host's interface that the plugin is made for: 29.1.0, with the major
/// number in the highest byte, the minor number in the next one, and the patch number below.
pub fn obs_module_ver() -> (version: u32)
    ensures
        version == 29 * 0x100_0000 + 1 * 0x1_0000,
{
    assert((29u32 << 24) | (1u32 << 16) == 29 * 0x100_0000 + 1 * 0x1_0000) by (bit_vector);
    (29 << 24) | (1 << 16)
}

}
