//! Middleware layers and the dispatch pipeline. A layer is a named,
//! route-scoped guard run before a handler: its block set wins over its
//! allow set, an empty allow set admits every route, and its own answer
//! may transform the parameters or cancel the dispatch. The layer's
//! transform runs with the embedding application; this module fixes which
//! layer is consulted next and what each answer leads to.

use vstd::prelude::*;

use crate::params::Params;

verus! {

/// A layer's answer: carry on with (possibly rewritten) parameters, or
/// cancel the dispatch.
pub enum LayerResult {
    Pass(Params),
    Cancel,
}

/// The texts of a list of names.
pub open spec fn names_view(v: Seq<String>) -> Seq<Seq<char>> {
    Seq::new(v.len(), |i: int| v[i]@)
}

/// Whether a layer scoped by `allowed` and `blocked` admits `route`: the
/// block set wins; otherwise a non-empty allow set must hold the route.
pub open spec fn spec_admits(
    allowed: Seq<Seq<char>>,
    blocked: Seq<Seq<char>>,
    route: Seq<char>,
) -> bool {
    !blocked.contains(route) && (allowed.len() == 0 || allowed.contains(route))
}

/// A route in the block set is never admitted, whatever the allow set
/// says.
pub proof fn lemma_block_wins(allowed: Seq<Seq<char>>, blocked: Seq<Seq<char>>, route: Seq<char>)
    requires
        blocked.contains(route),
    ensures
        !spec_admits(allowed, blocked, route),
{
}

/// Whether `v` holds the text of `x`.
fn names_contain(v: &Vec<String>, x: &String) -> (r: bool)
    ensures
        r == names_view(v@).contains(x@),
{
    let mut i: usize = 0;
    while i < v.len()
        invariant
            i <= v@.len(),
            forall|j: int| 0 <= j < i ==> v@[j]@ != x@,
        decreases v@.len() - i,
    {
        if v[i] == *x {
            proof {
                assert(names_view(v@)[i as int] == x@);
            }
            return true;
        }
        i += 1;
    }
    proof {
        assert(forall|j: int| 0 <= j < names_view(v@).len() ==> names_view(v@)[j] != x@);
    }
    false
}

/// A named, route-scoped guard. Its transform lives with the embedding
/// application under the same position in its own list.
pub struct Layer {
    pub name: String,
    pub(crate) allowed: Vec<String>,
    pub(crate) blocked: Vec<String>,
}

/// A layer guarding client dispatches.
pub type ClientLayer = Layer;

/// A layer guarding server dispatches.
pub type ServerLayer = Layer;

impl Layer {
    /// The layer's name.
    pub closed spec fn spec_name(&self) -> Seq<char> {
        self.name@
    }

    /// The routes the layer is restricted to; empty means all.
    pub closed spec fn spec_allowed(&self) -> Seq<Seq<char>> {
        names_view(self.allowed@)
    }

    /// The routes the layer always blocks.
    pub closed spec fn spec_blocked(&self) -> Seq<Seq<char>> {
        names_view(self.blocked@)
    }

    /// A layer named `name` with no route restrictions.
    pub fn new(name: String) -> (r: Layer)
        ensures
            r.spec_name() == name@,
            r.spec_allowed() == Seq::<Seq<char>>::empty(),
            r.spec_blocked() == Seq::<Seq<char>>::empty(),
    {
        let r = Layer { name, allowed: Vec::new(), blocked: Vec::new() };
        proof {
            assert(r.spec_allowed() =~= Seq::<Seq<char>>::empty());
            assert(r.spec_blocked() =~= Seq::<Seq<char>>::empty());
        }
        r
    }

    /// The layer restricted to the routes of `allow`.
    pub fn allow(self, allow: Vec<String>) -> (r: Layer)
        ensures
            r.spec_name() == self.spec_name(),
            r.spec_allowed() == names_view(allow@),
            r.spec_blocked() == self.spec_blocked(),
    {
        Layer { name: self.name, allowed: allow, blocked: self.blocked }
    }

    /// The layer blocking the routes of `blocked`.
    pub fn block(self, blocked: Vec<String>) -> (r: Layer)
        ensures
            r.spec_name() == self.spec_name(),
            r.spec_allowed() == self.spec_allowed(),
            r.spec_blocked() == names_view(blocked@),
    {
        Layer { name: self.name, allowed: self.allowed, blocked }
    }

    /// Whether this layer admits `route`.
    pub fn admits(&self, route: &String) -> (r: bool)
        ensures
            r == spec_admits(self.spec_allowed(), self.spec_blocked(), route@),
    {
        if names_contain(&self.blocked, route) {
            return false;
        }
        if self.allowed.len() == 0 {
            return true;
        }
        names_contain(&self.allowed, route)
    }
}

impl Clone for Layer {
    /// A clone guards the same routes under the same name.
    fn clone(&self) -> (r: Self)
        ensures
            r.spec_name() == self.spec_name(),
            r.spec_allowed() == self.spec_allowed(),
            r.spec_blocked() == self.spec_blocked(),
    {
        let r = Layer {
            name: self.name.clone(),
            allowed: crate::chars::clone_strings(&self.allowed),
            blocked: crate::chars::clone_strings(&self.blocked),
        };
        proof {
            assert(r.spec_allowed() =~= self.spec_allowed());
            assert(r.spec_blocked() =~= self.spec_blocked());
        }
        r
    }
}

/// Where a dispatch stands in the layer pipeline: the next layer whose
/// transform must be consulted, a blocked dispatch, or leave to run the
/// route's handler with the final parameters.
pub enum PipelineStep {
    Invoke { index: usize, params: Params },
    Blocked,
    Run { params: Params },
}

/// Whether the layer at position `i` admits `route`.
pub open spec fn spec_gate(layers: Seq<Layer>, route: Seq<char>, i: int) -> bool {
    spec_admits(layers[i].spec_allowed(), layers[i].spec_blocked(), route)
}

/// Entering the pipeline at position `i`: past the last layer the handler
/// runs; a layer that does not admit the route blocks at once; otherwise
/// that layer's transform is consulted.
pub open spec fn spec_pipeline_enter(
    layers: Seq<Layer>,
    route: Seq<char>,
    i: int,
    params: Params,
) -> PipelineStep {
    if i >= layers.len() {
        PipelineStep::Run { params }
    } else if !spec_gate(layers, route, i) {
        PipelineStep::Blocked
    } else {
        PipelineStep::Invoke { index: i as usize, params }
    }
}

/// What the answer of the layer at position `i` leads to: `Cancel`
/// blocks the dispatch; `Pass` enters the pipeline at the next layer with
/// the rewritten parameters.
pub open spec fn spec_pipeline_resume(
    layers: Seq<Layer>,
    route: Seq<char>,
    i: int,
    result: LayerResult,
) -> PipelineStep {
    match result {
        LayerResult::Cancel => PipelineStep::Blocked,
        LayerResult::Pass(p) => spec_pipeline_enter(layers, route, i + 1, p),
    }
}

/// Enters the pipeline at position `index`.
pub fn pipeline_enter(
    layers: &Vec<Layer>,
    route: &String,
    index: usize,
    params: Params,
) -> (r: PipelineStep)
    requires
        index <= layers@.len(),
    ensures
        r == spec_pipeline_enter(layers@, route@, index as int, params),
{
    if index == layers.len() {
        return PipelineStep::Run { params };
    }
    if !layers[index].admits(route) {
        return PipelineStep::Blocked;
    }
    PipelineStep::Invoke { index, params }
}

/// Applies the answer of the layer at position `index`.
pub fn pipeline_resume(
    layers: &Vec<Layer>,
    route: &String,
    index: usize,
    result: LayerResult,
) -> (r: PipelineStep)
    requires
        index < layers@.len(),
    ensures
        r == spec_pipeline_resume(layers@, route@, index as int, result),
{
    match result {
        LayerResult::Cancel => PipelineStep::Blocked,
        LayerResult::Pass(p) => {
            let n: usize = layers.len();
            proof {
                assert(index < n);
            }
            pipeline_enter(layers, route, index + 1, p)
        },
    }
}

/// The whole pipeline from position `i`, were the layers' transforms to
/// answer as `answers` says: the outcome the step functions reach when
/// the application feeds each `Invoke` the matching answer and re-enters
/// on each `Pass`, as `spec_pipeline_resume` does.
pub open spec fn spec_pipeline(
    layers: Seq<Layer>,
    route: Seq<char>,
    i: int,
    params: Params,
    answers: Seq<LayerResult>,
) -> PipelineStep
    decreases layers.len() - i,
    when 0 <= i && answers.len() == layers.len()
{
    match spec_pipeline_enter(layers, route, i, params) {
        PipelineStep::Blocked => PipelineStep::Blocked,
        PipelineStep::Run { params: p } => PipelineStep::Run { params: p },
        PipelineStep::Invoke { index: _, params: p } => match answers[i] {
            LayerResult::Cancel => PipelineStep::Blocked,
            LayerResult::Pass(p2) => spec_pipeline(layers, route, i + 1, p2, answers),
        },
    }
}

/// The route's handler runs only when every layer from position `i` on
/// admits the route and passes: one blocking or cancelling layer keeps
/// the handler from ever executing.
pub proof fn lemma_run_needs_every_pass(
    layers: Seq<Layer>,
    route: Seq<char>,
    i: int,
    params: Params,
    answers: Seq<LayerResult>,
)
    requires
        0 <= i <= layers.len(),
        answers.len() == layers.len(),
        spec_pipeline(layers, route, i, params, answers) is Run,
    ensures
        forall|j: int|
            i <= j < layers.len() ==> spec_gate(layers, route, j) && !(#[trigger] answers[j]
                is Cancel),
    decreases layers.len() - i,
{
    if i < layers.len() {
        lemma_run_needs_every_pass(
            layers,
            route,
            i + 1,
            spec_pipeline_pass_params(layers, route, i, params, answers),
            answers,
        );
    }
}

/// When every layer from position `i` on admits the route and passes,
/// the route's handler does run.
pub proof fn lemma_all_pass_runs(
    layers: Seq<Layer>,
    route: Seq<char>,
    i: int,
    params: Params,
    answers: Seq<LayerResult>,
)
    requires
        0 <= i <= layers.len(),
        answers.len() == layers.len(),
        forall|j: int|
            i <= j < layers.len() ==> spec_gate(layers, route, j) && (#[trigger] answers[j]
                is Pass),
    ensures
        spec_pipeline(layers, route, i, params, answers) is Run,
    decreases layers.len() - i,
{
    if i < layers.len() {
        lemma_all_pass_runs(
            layers,
            route,
            i + 1,
            spec_pipeline_pass_params(layers, route, i, params, answers),
            answers,
        );
    }
}

/// The parameters handed past layer `i`, when it passes.
spec fn spec_pipeline_pass_params(
    layers: Seq<Layer>,
    route: Seq<char>,
    i: int,
    params: Params,
    answers: Seq<LayerResult>,
) -> Params {
    if 0 <= i < answers.len() && answers[i] is Pass {
        answers[i]->Pass_0
    } else {
        params
    }
}

} // verus!
