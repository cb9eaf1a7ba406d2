use scope_info::{ExportInfo, ExportsInfo, ExportsInfoDependency, ProvidedInfo};

#[test]
fn new_keeps_its_arguments() {
    let d = ExportsInfoDependency::new(Some(vec!["a".to_string()]), "used".to_string(), Vec::new());
    assert_eq!(d.export_name, Some(vec!["a".to_string()]));
    assert_eq!(d.property, "used");
    assert!(d.ast_path.is_empty());
}

#[test]
fn used_is_replaced_by_true() {
    let d = ExportsInfoDependency::new(Some(vec!["a".to_string()]), "used".to_string(), Vec::new());
    assert_eq!(d.replacement_identifier(), Some("true".to_string()));
}

#[test]
fn other_properties_are_replaced_by_undefined() {
    for property in ["useInfo", "provideInfo", "canMangle", ""] {
        let d = ExportsInfoDependency::new(Some(vec![]), property.to_string(), Vec::new());
        assert_eq!(d.replacement_identifier(), Some("undefined".to_string()));
    }
}

#[test]
fn no_export_name_means_no_replacement() {
    let d = ExportsInfoDependency::new(None, "used".to_string(), Vec::new());
    assert_eq!(d.replacement_identifier(), None);
}

#[test]
fn exports_info_defaults_are_empty() {
    let info = ExportsInfo::default();
    assert!(info.exports.is_empty());
    let e = ExportInfo::default();
    assert!(e.name.is_empty() && !e.can_mangle && !e.used && !e.used_info && !e.provided_info);
    assert!(!ProvidedInfo::default().provided);
}
