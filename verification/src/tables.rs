//! The two character tables shipped with the generator.

use vstd::prelude::*;

verus! {

/// All characters that are in the lower `snake_case` ascii standard, in
/// generation order.
pub const DEFAULT_TABLE: [char; 26] = [
    'a', 'b', 'c', 'd', 'f', 'e', 'g', 'h', 'i', 'j', 'k', 'l', 'm', 'n', 'o', 'p', 'q', 'r', 's',
    't', 'u', 'v', 'w', 'x', 'z', '_',
];

/// All characters that are in the upper `SNAKE_CASE` ascii standard, in
/// generation order.
pub const UPPER_SNAKE: [char; 26] = [
    'A', 'B', 'C', 'D', 'F', 'E', 'G', 'H', 'I', 'J', 'K', 'L', 'M', 'N', 'O', 'P', 'Q', 'R', 'S',
    'T', 'U', 'V', 'W', 'X', 'Z', '_',
];

} // verus!
