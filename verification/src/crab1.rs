//! A small sample crate the enforcer is exercised against: functions whose
//! symbol references the test configuration marks as filesystem access.

use vstd::prelude::*;

verus! {

/// Holds a hash map so that its implementation is linked in; attributing
/// the source of such shared code is part of what the tool is tested on.
#[derive(Debug)]
pub struct HashMapWrapper {
    pub foo: std::collections::HashMap<String, bool>,
}

/// Declared as performing filesystem access by the test configuration,
/// though it does nothing: calls of it must be attributed to the callers,
/// not to this crate.
pub fn read_file(_path: &str) -> (r: Option<String>)
    ensures
        r is None,
{
    None
}

/// Calls `read_file` from inside the same crate: such calls must not count
/// as the crate using the permission.
pub fn call_read_file()
{
    let _ = read_file("tmp.txt");
}

} // verus!
