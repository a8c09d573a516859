use vstd::prelude::*;
use vstd::string::StringExecFns;
use crate::package::Info;

verus! {

/// The file name the archive of a package's staging tree is written under:
/// `<name>-<version>.peach`. The caller resolves it against its output
/// directory and streams the staging tree into it.
pub fn tarball_name(info: &Info) -> (r: String)
    ensures
        r@ == info.name@ + "-"@ + info.version@ + ".peach"@,
{
    let mut out = info.name.clone();
    out.append("-");
    out.append(info.version.as_str());
    out.append(".peach");
    out
}

} // verus!
