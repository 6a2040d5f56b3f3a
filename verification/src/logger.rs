use vstd::prelude::*;

verus! {

/// Tag for the process-wide default logger configuration. The logger itself
/// forwards records to the host's logging facility and is installed at most
/// once per process by the surrounding application; the library only fixes
/// the choice of filter pattern.
pub struct AriesCredXFrameworkDefaultLogger;

impl AriesCredXFrameworkDefaultLogger {
    /// The filter pattern the default logger runs with: the explicit
    /// argument where one is given, otherwise whatever the host environment
    /// supplies.
    pub fn effective_pattern(pattern: Option<String>, env_pattern: Option<String>) -> (r: Option<
        String,
    >)
        ensures
            r == (if pattern is Some {
                pattern
            } else {
                env_pattern
            }),
    {
        match pattern {
            Some(p) => Some(p),
            None => env_pattern,
        }
    }
}

} // verus!
