use vstd::prelude::*;
use crate::text::{concat3, concat5, decimal};

verus! {

// The texts of the analysis' findings. Each spec function states a message exactly;
// the executable function beside it builds that text.

pub open spec fn quoted(prefix: Seq<char>, name: Seq<char>, suffix: Seq<char>) -> Seq<char> {
    prefix + name + suffix
}

/// `prefix name suffix`, the shape of most findings.
pub fn quote(prefix: &str, name: &str, suffix: &str) -> (r: String)
    ensures
        r@ == quoted(prefix@, name@, suffix@),
{
    concat3(prefix, name, suffix)
}

/// `a x b y c`, the shape of findings that name two things.
pub fn quote2(a: &str, x: &str, b: &str, y: &str, c: &str) -> (r: String)
    ensures
        r@ == a@ + x@ + b@ + y@ + c@,
{
    concat5(a, x, b, y, c)
}

pub open spec fn msg_outlive(ptr: Seq<char>, target: Seq<char>) -> Seq<char> {
    "pointer '"@ + ptr + "' will outlive '"@ + target + "' which it points to"@
}

pub open spec fn msg_leak(name: Seq<char>) -> Seq<char> {
    quoted("memory leak of pointer '"@, name, "'"@)
}

pub open spec fn msg_method_arity(method: Seq<char>, class: Seq<char>, expected: nat, got: nat)
    -> Seq<char> {
    "method '"@ + method + "' on '"@ + class + "' expects "@ + decimal(expected)
        + " argument(s) but got "@ + decimal(got)
}

} // verus!
