//! The demangler's value type. The demangling pass itself talks to the
//! process's error machinery and stays outside the verified library; the
//! name it produces is plain data and lives here.

use vstd::prelude::*;

verus! {

/// A demangled symbol name.
#[derive(PartialEq, Debug, Clone)]
pub struct SymbolName {
    pub base_name: String,
}

impl SymbolName {
    pub fn new(base_name: String) -> (r: Self)
        ensures
            r.base_name@ == base_name@,
    {
        SymbolName { base_name }
    }

    pub fn default() -> (r: Self)
        ensures
            r.base_name@ == Seq::<char>::empty(),
    {
        SymbolName { base_name: String::new() }
    }
}

} // verus!
