use dev_cli::shared::Module;
use dev_cli::target::{Kind, Target};

#[test]
fn shared_module_description() {
    let module = Module::new();
    assert_eq!(module.owner(), Target::Shared);
    assert_eq!(module.kind(), Kind::Ts);
    assert_eq!(module.cwd(), "application/platform");
    assert_eq!(module.deps(), vec![]);
}
