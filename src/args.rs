use vstd::prelude::*;

verus! {

/// What the command line selects: the pet's directory name and the debug flag.
pub struct Args {
    pub pet: String,
    pub debug: bool,
}

} // verus!
