use rcc::ty::Ty;
use rcc::var_env::{align_to_stack, GlobalVarInfo, LocalVarInfo, VarEnvironment, VarInfo};

#[test]
fn test_align_to_stack() {
    assert_eq!(16, align_to_stack(1, 16));
    assert_eq!(16, align_to_stack(16, 16));
    assert_eq!(32, align_to_stack(17, 16));
}

#[test]
fn add_local_var() {
    let mut var_env = VarEnvironment::new();
    assert_eq!(
        var_env.add_local_var("x", Ty::Int),
        Some(LocalVarInfo {
            ty: Ty::Int,
            offset: 20,
        })
    );
}

#[test]
fn add_global_var() {
    let mut var_env = VarEnvironment::new();
    assert_eq!(
        var_env.add_global_var("x", Ty::Int),
        GlobalVarInfo {
            ty: Ty::Int,
            label: "x".to_owned(),
        }
    );
}

#[test]
fn resolve_local_var() {
    let mut var_env = VarEnvironment::new();
    var_env.add_local_var("x", Ty::Int);
    assert_eq!(
        var_env.resolve("x"),
        Some(VarInfo::Local(LocalVarInfo {
            ty: Ty::Int,
            offset: 20,
        }))
    );
}

#[test]
fn resolve_global_var() {
    let mut var_env = VarEnvironment::new();
    var_env.add_global_var("x", Ty::Int);
    assert_eq!(
        var_env.resolve("x"),
        Some(VarInfo::Global(GlobalVarInfo {
            ty: Ty::Int,
            label: "x".to_owned(),
        }))
    );
}

#[test]
fn lobal_var_shadowing_global_var() {
    let mut var_env = VarEnvironment::new();
    var_env.add_global_var("x", Ty::Int);
    var_env.add_local_var("x", Ty::Int);
    assert_eq!(
        var_env.resolve("x"),
        Some(VarInfo::Local(LocalVarInfo {
            ty: Ty::Int,
            offset: 20,
        }))
    );
}

#[test]
fn stack_size_is_aligned_and_covers_declared_sizes() {
    // Interleave 1-, 4- and 8-byte declarations in several orders; the
    // frame size must stay a multiple of 16 and cover the summed sizes.
    let orders: [[(&str, Ty); 3]; 3] = [
        [("a", Ty::Char), ("b", Ty::Int), ("c", Ty::Ptr(Box::new(Ty::Int)))],
        [("a", Ty::Ptr(Box::new(Ty::Int))), ("b", Ty::Char), ("c", Ty::Int)],
        [("a", Ty::Int), ("b", Ty::Ptr(Box::new(Ty::Int))), ("c", Ty::Char)],
    ];
    for decls in orders {
        let mut env = VarEnvironment::new();
        let mut sum = 0u32;
        for (name, ty) in decls {
            sum += ty.size();
            env.add_local_var(name, ty).unwrap();
        }
        let frame = env.stack_size();
        assert_eq!(frame % 16, 0);
        assert!(frame >= sum);
    }
    // An empty scope still reserves a whole multiple of 16.
    let env = VarEnvironment::new();
    assert_eq!(env.stack_size(), 16);
}

#[test]
fn add_local_var_is_idempotent() {
    let mut env = VarEnvironment::new();
    let first = env.add_local_var("x", Ty::Int).unwrap();
    let second = env.add_local_var("x", Ty::Int).unwrap();
    assert_eq!(first, second);
    assert_eq!(first.offset, 20);
    // The offset counter did not advance on the repeat declaration.
    assert_eq!(
        env.add_local_var("y", Ty::Int),
        Some(LocalVarInfo {
            ty: Ty::Int,
            offset: 24,
        })
    );
}

#[test]
fn new_local_scope_keeps_globals_and_resets_locals() {
    let mut env = VarEnvironment::new();
    env.add_global_var("g", Ty::Int);
    env.add_local_var("x", Ty::Int);
    let mut scope = env.new_local_scope();
    assert_eq!(scope.resolve("x"), None);
    assert_eq!(
        scope.resolve("g"),
        Some(VarInfo::Global(GlobalVarInfo {
            ty: Ty::Int,
            label: "g".to_owned(),
        }))
    );
    assert_eq!(
        scope.add_local_var("y", Ty::Int),
        Some(LocalVarInfo {
            ty: Ty::Int,
            offset: 20,
        })
    );
}
