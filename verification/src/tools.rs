//! Small helpers of the placement center.
use vstd::prelude::*;
use crate::errors::RobustMQError;

verus! {

/// The error for a file that is asked for and does not exist.
pub fn file_missing_error(path: &String) -> (r: RobustMQError)
    ensures
        r matches RobustMQError::CommmonError(m) && m@ == "File "@ + path@ + " does not exist"@,
{
    let mut m = String::from_str("File ");
    m.append(path.as_str());
    m.append(" does not exist");
    RobustMQError::CommmonError(m)
}

} // verus!
