use uefi_async::entry::{check_entry_module, entry_asyncness, ModuleError, ModuleItem};

fn f(name: &str, is_async: bool, params: usize) -> ModuleItem {
    ModuleItem::Fn { name: name.to_string(), is_async, params }
}

#[test]
fn entry_module_with_framework_functions_passes() {
    let items = vec![
        ModuleItem::Use,
        f("master_setup", true, 0),
        f("agent_setup", true, 0),
        f("agent_main", true, 0),
        f("agent_idle", false, 0),
        f("on_panic", false, 0),
        f("on_error", false, 0),
        f("on_exit", false, 0),
    ];
    assert_eq!(check_entry_module(&items), Ok(()));
    assert_eq!(check_entry_module(&vec![]), Ok(()));
}

#[test]
fn entry_module_refuses_the_first_bad_item() {
    assert_eq!(
        check_entry_module(&vec![ModuleItem::Use, f("helper", false, 0), ModuleItem::Other]),
        Err(ModuleError::UnknownFunction(1))
    );
    assert_eq!(
        check_entry_module(&vec![f("agent_main", false, 0)]),
        Err(ModuleError::WrongAsyncness(0))
    );
    assert_eq!(
        check_entry_module(&vec![f("agent_main", true, 0), f("on_exit", true, 0)]),
        Err(ModuleError::WrongAsyncness(1))
    );
    assert_eq!(
        check_entry_module(&vec![f("on_panic", false, 2)]),
        Err(ModuleError::HasParameters(0))
    );
    assert_eq!(
        check_entry_module(&vec![ModuleItem::Use, ModuleItem::Other]),
        Err(ModuleError::NotAllowed(1))
    );
}

#[test]
fn entry_asyncness_of_each_name() {
    assert_eq!(entry_asyncness(&"agent_setup".to_string()), Some(true));
    assert_eq!(entry_asyncness(&"on_error".to_string()), Some(false));
    assert_eq!(entry_asyncness(&"main".to_string()), None);
}
