use gdtools::format::reorder::{
    classify_virtual_method, is_export_annotation, is_standalone_annotation, MemberKind,
};

#[test]
fn test_member_kind_ordering() {
    assert!(MemberKind::Tool < MemberKind::ClassName);
    assert!(MemberKind::ClassName < MemberKind::Extends);
    assert!(MemberKind::Extends < MemberKind::Signal);
    assert!(MemberKind::Signal < MemberKind::Enum);
    assert!(MemberKind::Enum < MemberKind::Const);
    assert!(MemberKind::Const < MemberKind::StaticVar);
    assert!(MemberKind::StaticVar < MemberKind::ExportVar);
    assert!(MemberKind::ExportVar < MemberKind::Var);
    assert!(MemberKind::Var < MemberKind::OnreadyVar);
    assert!(MemberKind::OnreadyVar < MemberKind::StaticInit);
    assert!(MemberKind::StaticInit < MemberKind::StaticMethod);
    assert!(MemberKind::StaticMethod < MemberKind::VirtualInit);
    assert!(MemberKind::VirtualInit < MemberKind::VirtualEnterTree);
    assert!(MemberKind::VirtualEnterTree < MemberKind::VirtualReady);
    assert!(MemberKind::VirtualReady < MemberKind::VirtualProcess);
    assert!(MemberKind::VirtualProcess < MemberKind::VirtualPhysicsProcess);
    assert!(MemberKind::VirtualPhysicsProcess < MemberKind::VirtualOther);
    assert!(MemberKind::VirtualOther < MemberKind::OverriddenCustomMethod);
    assert!(MemberKind::OverriddenCustomMethod < MemberKind::Method);
    assert!(MemberKind::Method < MemberKind::InnerClass);
}

#[test]
fn test_is_export_annotation() {
    assert!(is_export_annotation("export"));
    assert!(is_export_annotation("export_range"));
    assert!(is_export_annotation("export_enum"));
    assert!(!is_export_annotation("onready"));
    assert!(!is_export_annotation("tool"));
}

#[test]
fn test_classify_virtual_method() {
    assert_eq!(classify_virtual_method("_init"), MemberKind::VirtualInit);
    assert_eq!(classify_virtual_method("_ready"), MemberKind::VirtualReady);
    assert_eq!(
        classify_virtual_method("_enter_tree"),
        MemberKind::VirtualEnterTree
    );
    assert_eq!(
        classify_virtual_method("_process"),
        MemberKind::VirtualProcess
    );
    assert_eq!(
        classify_virtual_method("_physics_process"),
        MemberKind::VirtualPhysicsProcess
    );
    assert_eq!(
        classify_virtual_method("_exit_tree"),
        MemberKind::VirtualOther
    );
    assert_eq!(
        classify_virtual_method("_custom"),
        MemberKind::OverriddenCustomMethod
    );
    assert_eq!(classify_virtual_method("foo"), MemberKind::Method);
}

#[test]
fn test_is_standalone_annotation() {
    assert!(is_standalone_annotation("tool"));
    assert!(is_standalone_annotation("icon"));
    assert!(is_standalone_annotation("static_unload"));
    assert!(!is_standalone_annotation("export"));
    assert!(!is_standalone_annotation("onready"));
}
