use vstd::prelude::*;

verus! {

/// What the loader does.
#[derive(Clone, Copy, PartialEq, Eq, Structural, Debug)]
pub enum LoaderPlan {
    /// The entry point is the loader's own: there is no program to load;
    /// exit with status 0.
    NothingToLoad,
    /// Jump to the program's entry point at this address.
    Jump(usize),
    /// The auxiliary vector holds no entry point: exit with status 1.
    MissingEntry,
}

/// The loader's decision, from the entry point that the auxiliary vector
/// gives (if any) and the address of the loader's own entry point.
pub fn plan(entry: Option<usize>, own_start: usize) -> (res: LoaderPlan)
    ensures
        res == match entry {
            None => LoaderPlan::MissingEntry,
            Some(e) => if e == own_start { LoaderPlan::NothingToLoad } else { LoaderPlan::Jump(e) },
        },
{
    match entry {
        None => LoaderPlan::MissingEntry,
        Some(e) => if e == own_start {
            LoaderPlan::NothingToLoad
        } else {
            LoaderPlan::Jump(e)
        },
    }
}

/// The line that the loader writes to standard error for its plan.
pub fn message(p: LoaderPlan) -> (res: &'static str)
    ensures
        res@ == match p {
            LoaderPlan::NothingToLoad => "No program to load\n"@,
            LoaderPlan::MissingEntry => "Missing required auxv\n"@,
            LoaderPlan::Jump(_) => "Hello from the loader\n"@,
        },
{
    match p {
        LoaderPlan::NothingToLoad => "No program to load\n",
        LoaderPlan::MissingEntry => "Missing required auxv\n",
        LoaderPlan::Jump(_) => "Hello from the loader\n",
    }
}

/// The exit status that goes with a plan that does not jump.
pub fn exit_status(p: LoaderPlan) -> (res: Option<u8>)
    ensures
        res == match p {
            LoaderPlan::NothingToLoad => Some(0u8),
            LoaderPlan::MissingEntry => Some(1u8),
            LoaderPlan::Jump(_) => None::<u8>,
        },
{
    match p {
        LoaderPlan::NothingToLoad => Some(0),
        LoaderPlan::MissingEntry => Some(1),
        LoaderPlan::Jump(_) => None,
    }
}

} // verus!
