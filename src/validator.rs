use vstd::prelude::*;
use crate::context::Context;
use crate::exception::InternalException;
use crate::node::{Node, NodeType};
use crate::object::{is_definition, object_for, Object, ObjectType};
use crate::position::Range;

verus! {

/// Walks top-level nodes and makes an object of each definition.
pub struct Validator {}

impl Validator {
    /// Validates `nodes` in the global context: an object for each, or the
    /// error on the first node that is no import or function definition.
    pub fn calculate(nodes: Vec<Node>) -> (r: Result<Vec<Object>, InternalException>)
        ensures
            r is Ok <==> forall|k: int| 0 <= k < nodes.len() ==> is_definition(#[trigger] nodes@[k].view()),
            r is Ok ==> r->Ok_0.len() == nodes.len() && forall|k: int|
                0 <= k < nodes.len() ==> object_for(#[trigger] r->Ok_0@[k], nodes@[k].view()),
            r is Ok ==> forall|k: int| 0 <= k < nodes.len() ==> (#[trigger] r->Ok_0@[k]).wf(),
    {
        let mut validator = Validator {};
        let context = Context::new(String::from_str("Global"), None);
        let mut objects: Vec<Object> = Vec::new();
        let mut rest = nodes;
        let ghost all = rest@;
        let n = rest.len();
        assert(all.subrange(0, all.len() as int) =~= all);
        let mut k: usize = 0;
        while rest.len() > 0
            invariant
                rest@ == all.subrange(k as int, all.len() as int),
                all == nodes@,
                all.len() == n,
                k <= all.len(),
                objects.len() == k,
                forall|j: int| 0 <= j < k ==> is_definition(#[trigger] all[j].view()),
                forall|j: int| 0 <= j < k ==> object_for(#[trigger] objects@[j], all[j].view()),
                forall|j: int| 0 <= j < k ==> (#[trigger] objects@[j]).wf(),
            decreases rest.len(),
        {
            let node = rest.remove(0);
            assert(node == all[k as int]);
            match validator.start(&context, node) {
                Ok(o) => {
                    objects.push(o);
                    k = k + 1;
                    assert(rest@ =~= all.subrange(k as int, all.len() as int));
                },
                Err(e) => {
                    assert(!is_definition(nodes@[k as int].view()));
                    return Err(e);
                },
            }
        }
        assert(k == all.len());
        Ok(objects)
    }

    /// The object of one top-level node, in `context`.
    pub fn start(&mut self, context: &Context, node: Node) -> (r: Result<Object, InternalException>)
        ensures
            r is Ok <==> is_definition(node.view()),
            r is Ok ==> object_for(r->Ok_0, node.view()),
            r is Ok ==> r->Ok_0.wf(),
            *final(self) == *old(self),
    {
        match node.node {
            NodeType::ExternalImport(name) => Ok(self.start_external_import(context, node.range, name)),
            NodeType::LocalImport(name) => Ok(self.start_local_import(context, node.range, name)),
            NodeType::DefineFunction(name, args, return_type, body) => Ok(
                self.start_define_function(context, node.range, name, args, *return_type, body),
            ),
            _ => Err(InternalException::new(String::from_str("Invalid global node."))),
        }
    }

    /// An import of module `name`: an empty module.
    pub fn start_external_import(&mut self, context: &Context, range: Range, name: String) -> (r: Object)
        ensures
            r.value is Module && r.value->Module_0@.len() == 0,
            r.wf(),
            *final(self) == *old(self),
    {
        Object::new(ObjectType::Module(Vec::new()))
    }

    /// An import of file `name`: an empty module.
    pub fn start_local_import(&mut self, context: &Context, range: Range, name: String) -> (r: Object)
        ensures
            r.value is Module && r.value->Module_0@.len() == 0,
            r.wf(),
            *final(self) == *old(self),
    {
        Object::new(ObjectType::Module(Vec::new()))
    }

    /// A function: its signature and body.
    pub fn start_define_function(
        &mut self,
        context: &Context,
        range: Range,
        name: String,
        args: Vec<(String, Node)>,
        return_type: Node,
        body: Vec<Node>,
    ) -> (r: Object)
        ensures
            r.value == ObjectType::Function(args, return_type, body),
            *final(self) == *old(self),
    {
        Object::new(ObjectType::Function(args, return_type, body))
    }
}

} // verus!
