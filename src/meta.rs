//! Version and metadata queries answered to the host.
use vstd::prelude::*;

verus! {

/// The boundary's interface version; the host compares it before using the table.
pub const ABI_VERSION: u64 = 1;

/// The names the host shows first among the variables, in this order.
pub open spec fn leading_variable_names() -> Seq<char> {
    "inited,trading,pos,"@
}

pub fn abi_version() -> (r: u64)
    ensures
        r == ABI_VERSION,
{
    ABI_VERSION
}

/// The strategy's author.
pub fn author() -> (r: &'static str)
    ensures
        r@ == "wuliehan"@,
{
    "wuliehan"
}

/// The declared parameters with their defaults, as a setting-string.
pub fn parameters() -> (r: &'static str)
    ensures
        r@ == "fast_window:10,slow_window:20"@,
{
    "fast_window:10,slow_window:20"
}

/// The strategy-declared variable names, comma-joined.
pub fn variables() -> (r: &'static str)
    ensures
        r@ == "fast_ma0,fast_ma1,slow_ma0,slow_ma1"@,
{
    "fast_ma0,fast_ma1,slow_ma0,slow_ma1"
}

/// All variable names reported to the host: the three host-visible scalars
/// first, then the strategy's own.
pub fn variable_names() -> (r: String)
    ensures
        r@ == leading_variable_names() + "fast_ma0,fast_ma1,slow_ma0,slow_ma1"@,
{
    let mut s = String::from_str("inited,trading,pos,");
    s.append(variables());
    s
}

} // verus!
