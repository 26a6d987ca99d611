//! The checks an entry module passes before the firmware entry point is
//! generated for it: it holds only `use` items and the entry functions the
//! framework knows, each with the right asyncness and no parameters.
use vstd::prelude::*;

verus! {

/// An item of an entry module, as the checks see it.
#[derive(Debug, Clone, PartialEq, Eq)]
pub enum ModuleItem {
    /// A function: its name, whether it is `async`, and its parameter count.
    Fn { name: String, is_async: bool, params: usize },
    /// A `use` item.
    Use,
    /// Any other item (a struct, a constant, a macro, ...).
    Other,
}

/// Why an entry module was refused, with the index of the first item at
/// fault.
#[derive(Debug, Clone, Copy, PartialEq, Eq)]
pub enum ModuleError {
    /// A function that is not one of the entry functions.
    UnknownFunction(usize),
    /// An entry function that is `async` where it must not be, or the
    /// other way round.
    WrongAsyncness(usize),
    /// An entry function with parameters.
    HasParameters(usize),
    /// An item that is neither a function nor a `use`.
    NotAllowed(usize),
}

/// Whether the entry function `name` must be `async`; `None` when no entry
/// function has that name.
pub open spec fn entry_async(name: Seq<char>) -> Option<bool> {
    if name == "master_setup"@ || name == "agent_setup"@ || name == "agent_main"@ {
        Some(true)
    } else if name == "agent_idle"@ || name == "on_panic"@ || name == "on_error"@ || name
        == "on_exit"@ {
        Some(false)
    } else {
        None
    }
}

/// What is wrong with item `item` at index `i`, if anything.
pub open spec fn item_error(item: ModuleItem, i: usize) -> Option<ModuleError> {
    match item {
        ModuleItem::Fn { name, is_async, params } => match entry_async(name@) {
            None => Some(ModuleError::UnknownFunction(i)),
            Some(must_be_async) => if is_async != must_be_async {
                Some(ModuleError::WrongAsyncness(i))
            } else if params > 0 {
                Some(ModuleError::HasParameters(i))
            } else {
                None
            },
        },
        ModuleItem::Use => None,
        ModuleItem::Other => Some(ModuleError::NotAllowed(i)),
    }
}

/// Whether the function `name` is an entry function, and if so whether it
/// must be `async`.
pub fn entry_asyncness(name: &String) -> (r: Option<bool>)
    ensures
        r == entry_async(name@),
{
    if name.eq(&"master_setup".to_owned()) || name.eq(&"agent_setup".to_owned()) || name.eq(
        &"agent_main".to_owned(),
    ) {
        Some(true)
    } else if name.eq(&"agent_idle".to_owned()) || name.eq(&"on_panic".to_owned()) || name.eq(
        &"on_error".to_owned(),
    ) || name.eq(&"on_exit".to_owned()) {
        Some(false)
    } else {
        None
    }
}

/// Checks one item at index `i`.
pub fn check_item(item: &ModuleItem, i: usize) -> (r: Option<ModuleError>)
    ensures
        r == item_error(*item, i),
{
    match item {
        ModuleItem::Fn { name, is_async, params } => match entry_asyncness(name) {
            None => Some(ModuleError::UnknownFunction(i)),
            Some(must_be_async) => if *is_async != must_be_async {
                Some(ModuleError::WrongAsyncness(i))
            } else if *params > 0 {
                Some(ModuleError::HasParameters(i))
            } else {
                None
            },
        },
        ModuleItem::Use => None,
        ModuleItem::Other => Some(ModuleError::NotAllowed(i)),
    }
}

/// Checks the items of an entry module in order: `Ok` when every item
/// passes, otherwise the error of the first item that does not.
pub fn check_entry_module(items: &Vec<ModuleItem>) -> (r: Result<(), ModuleError>)
    ensures
        r is Ok <==> forall|i: int| 0 <= i < items@.len() ==> #[trigger] item_error(items@[i], i as usize) is None,
        r matches Err(e) ==> exists|i: int|
            0 <= i < items@.len() && #[trigger] item_error(items@[i], i as usize) == Some(e)
                && forall|j: int| 0 <= j < i ==> #[trigger] item_error(items@[j], j as usize) is None,
{
    let mut i: usize = 0;
    while i < items.len()
        invariant
            i <= items@.len(),
            forall|j: int| 0 <= j < i ==> #[trigger] item_error(items@[j], j as usize) is None,
        decreases items@.len() - i,
    {
        match check_item(&items[i], i) {
            Some(e) => {
                let ghost k: int = i as int;
                assert(k as usize == i);
                assert(item_error(items@[k], k as usize) == Some(e));
                return Err(e);
            },
            None => {},
        }
        i += 1;
    }
    Ok(())
}

} // verus!
