//! Model-definition helpers: modules that build their computation into
//! the graph.

use vstd::prelude::*;

use crate::expr::Expr;
use crate::graph::{FunctionKind, Graph, Op};
use crate::hl::GraphTensor;
use vstd::string::StringExecFns;

verus! {

/// A module that can append its parameter nodes to a graph.
pub trait InitModule: Sized {
    /// The module's parameter handles are valid in the graph.
    spec fn module_wf(&self, g: Graph) -> bool;

    /// How creation changed the graph.
    spec fn init_post(&self, old_g: Graph, new_g: Graph) -> bool;

    /// Creates the module, appending its parameter nodes.
    fn initialize(cx: &mut Graph) -> (r: Self)
        requires
            old(cx).wf(),
        ensures
            final(cx).wf(),
            r.module_wf(*final(cx)),
            r.init_post(*old(cx), *final(cx)),
    ;
}

/// A module that maps an input cursor to an output cursor.
pub trait Module {
    /// The inputs on which the module can build its computation.
    spec fn forward_ok(&self, input: GraphTensor, g: Graph) -> bool;

    /// What the built computation guarantees about the result and the
    /// graph.
    spec fn forward_post(&self, input: GraphTensor, old_g: Graph, new_g: Graph, r: GraphTensor) -> bool;

    /// Builds the module's computation on the input.
    fn forward(&self, input: GraphTensor, g: &mut Graph) -> (r: GraphTensor)
        requires
            old(g).wf(),
            self.forward_ok(input, *old(g)),
        ensures
            final(g).wf(),
            r.valid_in(*final(g)),
            self.forward_post(input, *old(g), *final(g), r),
    ;
}

/// A module that can take its parameter data from a state dictionary.
pub trait LoadModule {
    /// The dictionaries the module can load from: they must hold every
    /// parameter the module looks up.
    spec fn load_ok(&self, sd: StateDict, g: Graph) -> bool;

    /// How loading moved data from the dictionary into the graph.
    spec fn load_post(&self, old_sd: StateDict, new_sd: StateDict, old_g: Graph, new_g: Graph) -> bool;

    /// Attaches the dictionary's data to the module's parameters.
    fn load(&mut self, state_dict: &mut StateDict, g: &mut Graph)
        requires
            old(g).wf(),
            old(self).load_ok(*old(state_dict), *old(g)),
        ensures
            final(g).wf(),
            final(self).load_post(*old(state_dict), *final(state_dict), *old(g), *final(g)),
    ;
}

/// Named parameter data for loading into a module.
pub struct StateDict {
    /// Parameter name and its data, one entry per parameter.
    pub data: Vec<(String, Vec<i64>)>,
}

impl StateDict {
    /// An empty dictionary.
    pub fn new() -> (r: StateDict)
        ensures
            r.data@.len() == 0,
    {
        StateDict { data: Vec::new() }
    }

    /// Removes and returns the data stored under `key`, if any: on a
    /// hit, the returned data is exactly the first entry's data, that
    /// entry alone leaves the dictionary, and the hit is the first.
    pub fn remove(&mut self, key: &String) -> (r: Option<Vec<i64>>)
        ensures
            r matches Some(v) ==> exists|j: int|
                {
                    &&& 0 <= j < old(self).data@.len()
                    &&& (#[trigger] old(self).data@[j]).0@ == key@
                    &&& v == old(self).data@[j].1
                    &&& final(self).data@ == old(self).data@.remove(j)
                    &&& forall|q: int| 0 <= q < j ==> (#[trigger] old(self).data@[q]).0@ != key@
                },
            r is None ==> final(self).data@ == old(self).data@ && forall|j: int|
                0 <= j < old(self).data@.len() ==> (#[trigger] old(self).data@[j]).0@ != key@,
    {
        let n = self.data.len();
        let mut i: usize = 0;
        while i < n
            invariant
                i <= n,
                n == self.data@.len(),
                self.data@ == old(self).data@,
                forall|j: int| 0 <= j < i ==> (#[trigger] self.data@[j]).0@ != key@,
            decreases n - i,
        {
            if self.data[i].0.eq(key) {
                proof {
                    assert((old(self).data@[i as int]).0@ == key@);
                }
                let entry = self.data.remove(i);
                proof {
                    assert(entry == old(self).data@[i as int]);
                    assert(self.data@ == old(self).data@.remove(i as int));
                }
                return Some(entry.1);
            }
            i = i + 1;
        }
        None
    }
}

/// A linear layer: one weight matrix of shape `A` by `B`, applied by
/// matrix multiplication.
pub struct Linear<const A: usize, const B: usize> {
    /// The weight matrix handle.
    pub weight: GraphTensor,
}

impl<const A: usize, const B: usize> Linear<A, B> {
    /// Creates the layer and attaches the given weight data in one
    /// step: the graph gains exactly the weight node and its data.
    pub fn initialize_with(cx: &mut Graph, data: Vec<i64>) -> (r: Self)
        requires
            old(cx).wf(),
        ensures
            final(cx).wf(),
            r.wf_in(*final(cx)),
            !old(cx).nodes().dom().contains(r.weight.id),
            final(cx).nodes() == old(cx).nodes().insert(
                r.weight.id,
                crate::graph::Op::Function(crate::graph::FunctionKind::Load),
            ),
            final(cx).edges() == old(cx).edges(),
            final(cx).tensors@ == seq![(r.weight.id, data)] + old(cx).tensors@,
            final(cx).to_retrieve@ == old(cx).to_retrieve@,
            final(cx).no_delete@ == old(cx).no_delete@,
            final(cx).dyn_map@ == old(cx).dyn_map@,
    {
        let mut dims: Vec<Expr> = Vec::new();
        dims.push(Expr::Num(A));
        dims.push(Expr::Num(B));
        let weight = cx.tensor(dims);
        cx.set_tensor(weight.id, data);
        Linear { weight }
    }

    /// The weight handle names an input node holding a fresh
    /// contiguous `A` by `B` view.
    pub open spec fn wf_in(&self, g: Graph) -> bool {
        &&& self.weight.valid_in(g)
        &&& self.weight.shape.rank() == 2
        &&& self.weight.no_fake()
        &&& self.weight.shape.lview()[0] == crate::shape::default_axis(Expr::Num(A))
        &&& self.weight.shape.lview()[1] == crate::shape::default_axis(Expr::Num(B))
        &&& self.weight.shape.is_contiguous_spec()
        &&& g.nodes()[self.weight.id] == Op::Function(FunctionKind::Load)
    }
}

impl<const A: usize, const B: usize> InitModule for Linear<A, B> {
    open spec fn module_wf(&self, g: Graph) -> bool {
        self.wf_in(g)
    }

    /// Creation appends exactly the one weight node and touches
    /// nothing else.
    open spec fn init_post(&self, old_g: Graph, new_g: Graph) -> bool {
        &&& !old_g.nodes().dom().contains(self.weight.id)
        &&& new_g.nodes() == old_g.nodes().insert(
            self.weight.id,
            Op::Function(FunctionKind::Load),
        )
        &&& new_g.edges() == old_g.edges()
        &&& new_g.to_retrieve@ == old_g.to_retrieve@
        &&& new_g.no_delete@ == old_g.no_delete@
        &&& new_g.tensors@ == old_g.tensors@
        &&& new_g.dyn_map@ == old_g.dyn_map@
    }

    /// Appends the unset weight node; its data is attached later, by
    /// `set` or `load`.
    fn initialize(cx: &mut Graph) -> (r: Self) {
        let mut dims: Vec<Expr> = Vec::new();
        dims.push(Expr::Num(A));
        dims.push(Expr::Num(B));
        let weight = cx.tensor(dims);
        Linear { weight }
    }
}

impl<const A: usize, const B: usize> Module for Linear<A, B> {
    open spec fn forward_ok(&self, input: GraphTensor, g: Graph) -> bool {
        &&& self.wf_in(g)
        &&& input.valid_in(g)
        &&& input.no_fake()
        &&& (input.shape.rank() == 1 || input.shape.rank() == 2)
    }

    /// The built subgraph is exactly a recognised matrix-multiply
    /// idiom rooted at the result: the matrix-vector one for a vector
    /// input, the matrix-matrix one for a batch of rows; existing
    /// nodes and the bookkeeping sets are untouched.
    open spec fn forward_post(
        &self,
        input: GraphTensor,
        old_g: Graph,
        new_g: Graph,
        r: GraphTensor,
    ) -> bool {
        &&& input.shape.rank() == 1 ==> r.shape.rank() == 1 && exists|m: usize|
            crate::matmul::is_gemv_match(new_g.nodes(), new_g.edges(), m, r.id)
        &&& input.shape.rank() == 2 ==> r.shape.rank() == 2 && exists|m: usize|
            crate::matmul::is_gemm_match(new_g.nodes(), new_g.edges(), m, r.id)
        &&& forall|x: usize|
            #[trigger] old_g.nodes().dom().contains(x) ==> new_g.nodes().dom().contains(x)
        &&& new_g.to_retrieve@ == old_g.to_retrieve@
        &&& new_g.no_delete@ == old_g.no_delete@
        &&& new_g.tensors@ == old_g.tensors@
        &&& new_g.dyn_map@ == old_g.dyn_map@
    }

    /// A vector input is contracted against the weight directly; a
    /// batch of rows is matrix-multiplied.
    fn forward(&self, input: GraphTensor, g: &mut Graph) -> (r: GraphTensor) {
        let w = GraphTensor {
            id: self.weight.id,
            shape: self.weight.shape.clone(),
        };
        if input.shape.len() == 1 {
            input.matvec(w, g)
        } else {
            input.matmul(w, g)
        }
    }
}

impl<const A: usize, const B: usize> LoadModule for Linear<A, B> {
    /// The dictionary must hold an entry named `weight`.
    open spec fn load_ok(&self, sd: StateDict, g: Graph) -> bool {
        &&& self.wf_in(g)
        &&& exists|j: int|
            0 <= j < sd.data@.len() && (#[trigger] sd.data@[j]).0@ == "weight"@
    }

    /// The first entry named `weight` leaves the dictionary and its
    /// data is attached to the weight node; nothing else changes.
    open spec fn load_post(
        &self,
        old_sd: StateDict,
        new_sd: StateDict,
        old_g: Graph,
        new_g: Graph,
    ) -> bool {
        exists|j: int|
            {
                &&& 0 <= j < old_sd.data@.len()
                &&& (#[trigger] old_sd.data@[j]).0@ == "weight"@
                &&& forall|q: int| 0 <= q < j ==> (#[trigger] old_sd.data@[q]).0@ != "weight"@
                &&& new_sd.data@ == old_sd.data@.remove(j)
                &&& new_g.tensors@ == seq![(self.weight.id, old_sd.data@[j].1)] + old_g.tensors@
                &&& new_g.nodes() == old_g.nodes()
                &&& new_g.edges() == old_g.edges()
                &&& new_g.to_retrieve@ == old_g.to_retrieve@
                &&& new_g.no_delete@ == old_g.no_delete@
                &&& new_g.dyn_map@ == old_g.dyn_map@
            }
    }

    /// Takes the entry named `weight` from the dictionary and attaches
    /// it to the weight node.  The dictionaries this accepts always
    /// hold one.
    fn load(&mut self, state_dict: &mut StateDict, g: &mut Graph) {
        let key = new_weight_key();
        match state_dict.remove(&key) {
            Some(data) => {
                g.set_tensor(self.weight.id, data);
            },
            None => {
                proof {
                    assert(false);
                }
            },
        }
    }
}

/// The parameter name of a linear layer's weight.
fn new_weight_key() -> (r: String)
    ensures
        r@ == "weight"@,
{
    String::from_str("weight")
}

} // verus!
