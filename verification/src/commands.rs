use vstd::prelude::*;
use vstd::string::StringExecFns;

verus! {

/// Report that info for a package is being retrieved. The operation is a
/// stub: it only hands the status line back for the caller to log.
pub fn info(name: &str) -> (r: Result<String, ()>)
    ensures
        r matches Ok(m) && m@ == "Retrieving info for package: "@ + name@,
{
    let mut m = String::from_str("Retrieving info for package: ");
    m.append(name);
    Ok(m)
}

/// Report that a package is being removed. The operation is a stub: it only
/// hands the status line back for the caller to log.
pub fn uninstall(name: &str) -> (r: Result<String, ()>)
    ensures
        r matches Ok(m) && m@ == "Removing package: "@ + name@,
{
    let mut m = String::from_str("Removing package: ");
    m.append(name);
    Ok(m)
}

} // verus!
