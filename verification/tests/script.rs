use blitz_dom::script::ScriptLoadingStyle;

#[test]
fn from_attrs_async_wins() {
    assert_eq!(ScriptLoadingStyle::from_attrs(true, true, true), ScriptLoadingStyle::AsyncImmediate);
    assert_eq!(ScriptLoadingStyle::from_attrs(true, false, false), ScriptLoadingStyle::AsyncImmediate);
}

#[test]
fn from_attrs_defer_or_module_defers() {
    assert_eq!(ScriptLoadingStyle::from_attrs(false, true, false), ScriptLoadingStyle::AsyncDefer);
    assert_eq!(ScriptLoadingStyle::from_attrs(false, false, true), ScriptLoadingStyle::AsyncDefer);
}

#[test]
fn from_attrs_plain_blocks() {
    assert_eq!(ScriptLoadingStyle::from_attrs(false, false, false), ScriptLoadingStyle::Blocking);
}
