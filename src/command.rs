use vstd::prelude::*;

verus! {

/// The command line of the tool: an optional subcommand.
pub struct Args {
    pub cmd: Option<Command>,
}

/// One request to the store.  An empty category stands for "no category".
pub enum Command {
    Add { description: String, category: String },
    Done { id: i64 },
    DeleteDone,
    List { category: String },
}

/// The category that a command-line argument names: none when it is empty.
pub fn category_filter(category: String) -> (r: Option<String>)
    ensures
        category@.len() == 0 ==> r is None,
        category@.len() > 0 ==> r == Some(category),
{
    if category.as_str().is_empty() {
        None
    } else {
        Some(category)
    }
}

} // verus!
