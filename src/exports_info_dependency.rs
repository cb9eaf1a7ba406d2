//! A reference to `__webpack_exports_info__`, answered at code generation.

use swc_core::ecma::visit::AstParentKind;
use vstd::prelude::*;

verus! {

/// swc's `AstParentKind`, one step of a path into the syntax tree; only
/// carried, never inspected.
#[verifier::external_type_specification]
#[verifier::external_body]
pub struct ExAstParentKind(swc_core::ecma::visit::AstParentKind);

/// The path from a module's root node to one expression.
pub type JsAstPath = Vec<AstParentKind>;

/// The name of the identifier that replaces an exports-info expression
/// asking for `property`: `true` for `used`, `undefined` for anything else.
pub open spec fn replacement_name(property: Seq<char>) -> Seq<char> {
    if property == "used"@ {
        "true"@
    } else {
        "undefined"@
    }
}

/// An exports-info expression found at `ast_path`, asking for `property`
/// of the export named by `export_name`.
#[derive(Debug, Eq, PartialEq, Clone, Hash)]
pub struct ExportsInfoDependency {
    pub export_name: Option<Vec<String>>,
    pub property: String,
    #[allow(unused)]
    pub ast_path: JsAstPath,
}

impl ExportsInfoDependency {
    pub fn new(export_name: Option<Vec<String>>, property: String, ast_path: JsAstPath) -> (r: Self)
        ensures
            r.export_name == export_name,
            r.property == property,
            r.ast_path == ast_path,
    {
        Self { export_name, property, ast_path }
    }

    /// The identifier that code generation puts in place of the expression:
    /// none where no export is named, else the one that `replacement_name`
    /// gives for the property.
    pub fn replacement_identifier(&self) -> (r: Option<String>)
        ensures
            r is Some <==> self.export_name is Some,
            r matches Some(s) ==> s@ == replacement_name(self.property@),
    {
        if self.export_name.is_some() {
            let used = "used".to_owned();
            if self.property == used {
                Some("true".to_owned())
            } else {
                Some("undefined".to_owned())
            }
        } else {
            None
        }
    }
}

} // verus!
