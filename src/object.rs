use vstd::prelude::*;
use crate::node::{args_view, nodes_view, Node, NodeKind, NodeView};

verus! {

/// What validation makes of a top-level definition.
pub struct Object {
    pub value: ObjectType,
}

pub enum ObjectType {
    /// Members by name; no name occurs twice (`names_unique`).
    Module(Vec<(String, ObjectType)>),
    /// Parameters with their types, return type, body.
    Function(Vec<(String, Node)>, Node, Vec<Node>),
}

/// No two members have the same name.
pub open spec fn names_unique(members: Seq<(String, ObjectType)>) -> bool {
    forall|i: int, j: int|
        0 <= i < j < members.len() ==> #[trigger] members[i].0@ != #[trigger] members[j].0@
}

impl Object {
    /// The object is well formed: a module names each member once.
    pub open spec fn wf(&self) -> bool {
        match self.value {
            ObjectType::Module(members) => names_unique(members@),
            ObjectType::Function(..) => true,
        }
    }

    pub fn new(value: ObjectType) -> (r: Object)
        ensures
            r.value == value,
    {
        Object { value }
    }
}

/// `o` is what validation makes of node `n`: an empty module for an import,
/// the signature and body for a function.
pub open spec fn object_for(o: Object, n: NodeView) -> bool {
    match n.kind {
        NodeKind::ExternalImport(_) | NodeKind::LocalImport(_) => match o.value {
            ObjectType::Module(members) => members@.len() == 0,
            _ => false,
        },
        NodeKind::DefineFunction(_, args, ret, body) => match o.value {
            ObjectType::Function(a, r, b) => args_view(a@) == args && r.view() == *ret && nodes_view(b@)
                == body,
            _ => false,
        },
        _ => false,
    }
}

/// A node that may stand at the top level of a validated program.
pub open spec fn is_definition(n: NodeView) -> bool {
    match n.kind {
        NodeKind::ExternalImport(_) | NodeKind::LocalImport(_) | NodeKind::DefineFunction(..) => true,
        _ => false,
    }
}

} // verus!
