//! Where the drawing of the interface stands among the steps of drawing a frame.
use vstd::prelude::*;

verus! {

/// The graph of the steps that draw an interface.
#[derive(Clone, Copy, PartialEq, Eq, Structural, Hash, Debug)]
pub struct SubGraphUi;

/// The steps that draw an interface.
#[derive(Clone, Copy, PartialEq, Eq, Structural, Hash, Debug)]
pub enum NodeUi {
    UiPass,
}

/// The systems that others are put in order with.
#[derive(Clone, Copy, PartialEq, Eq, Structural, Hash, Debug)]
pub enum RenderUiSystem {
    ExtractNode,
}

/// The graphs of the steps that draw what a camera sees.
#[derive(Clone, Copy, PartialEq, Eq, Structural, Debug)]
pub enum CoreGraph {
    Core2d,
    Core3d,
}

/// A step of a graph.
#[derive(Clone, Copy, PartialEq, Eq, Structural, Debug)]
pub enum GraphNode {
    /// What a two-dimensional camera sees.
    MainPass,
    /// The end of drawing what a three-dimensional camera sees.
    EndMainPass,
    EndMainPassPostProcessing,
    Ui(NodeUi),
    Upscaling,
}

/// A change of a graph.
#[derive(Clone, Copy, PartialEq, Eq, Structural, Debug)]
pub enum GraphStep {
    /// Add the graph of the interface.
    AddSubGraph(SubGraphUi),
    /// Add a step that runs the graph of the interface.
    AddNode(NodeUi),
    /// Run the first step before the second.
    AddEdge(GraphNode, GraphNode),
}

/// The step that ends the drawing of what a camera sees.
pub open spec fn main_pass(graph: CoreGraph) -> GraphNode {
    match graph {
        CoreGraph::Core2d => GraphNode::MainPass,
        CoreGraph::Core3d => GraphNode::EndMainPass,
    }
}

/// The step that draws the interface.
pub open spec fn ui_pass() -> GraphNode {
    GraphNode::Ui(NodeUi::UiPass)
}

/// The changes of a graph that put the interface in.
pub open spec fn graph_steps(graph: CoreGraph) -> Seq<(CoreGraph, GraphStep)> {
    seq![
        (graph, GraphStep::AddSubGraph(SubGraphUi)),
        (graph, GraphStep::AddNode(NodeUi::UiPass)),
        (graph, GraphStep::AddEdge(main_pass(graph), ui_pass())),
        (graph, GraphStep::AddEdge(GraphNode::EndMainPassPostProcessing, ui_pass())),
        (graph, GraphStep::AddEdge(ui_pass(), GraphNode::Upscaling)),
    ]
}

/// The changes of the graphs that are there.
pub open spec fn build_steps(
    render_app: bool,
    graph_2d: bool,
    graph_3d: bool,
) -> Seq<(CoreGraph, GraphStep)> {
    let steps_2d = if render_app && graph_2d {
        graph_steps(CoreGraph::Core2d)
    } else {
        Seq::empty()
    };
    let steps_3d = if render_app && graph_3d {
        graph_steps(CoreGraph::Core3d)
    } else {
        Seq::empty()
    };
    steps_2d + steps_3d
}

fn push_graph_steps(steps: &mut Vec<(CoreGraph, GraphStep)>, graph: CoreGraph)
    ensures
        final(steps)@ == old(steps)@ + graph_steps(graph),
{
    let main = match graph {
        CoreGraph::Core2d => GraphNode::MainPass,
        CoreGraph::Core3d => GraphNode::EndMainPass,
    };
    let ui = GraphNode::Ui(NodeUi::UiPass);
    steps.push((graph, GraphStep::AddSubGraph(SubGraphUi)));
    steps.push((graph, GraphStep::AddNode(NodeUi::UiPass)));
    steps.push((graph, GraphStep::AddEdge(main, ui)));
    steps.push((graph, GraphStep::AddEdge(GraphNode::EndMainPassPostProcessing, ui)));
    steps.push((graph, GraphStep::AddEdge(ui, GraphNode::Upscaling)));
    assert(steps@ =~= old(steps)@ + graph_steps(graph));
}

/// What is to be done to the graphs so that the interface is drawn. Without an application that
/// renders, or without a graph, there is nothing to do.
pub fn build_ui_render(render_app: bool, graph_2d: bool, graph_3d: bool) -> (r: Vec<
    (CoreGraph, GraphStep),
>)
    ensures
        r@ == build_steps(render_app, graph_2d, graph_3d),
{
    let mut steps: Vec<(CoreGraph, GraphStep)> = Vec::new();
    if !render_app {
        assert(steps@ =~= build_steps(render_app, graph_2d, graph_3d));
        return steps;
    }
    if graph_2d {
        push_graph_steps(&mut steps, CoreGraph::Core2d);
    }
    if graph_3d {
        push_graph_steps(&mut steps, CoreGraph::Core3d);
    }
    assert(steps@ =~= build_steps(render_app, graph_2d, graph_3d));
    steps
}

/// In every graph that is there, the interface is drawn after what the camera sees and its
/// processing, and before upscaling. The step is there before it is put in order.
pub proof fn law_interface_is_drawn_over_the_scene(
    graph_2d: bool,
    graph_3d: bool,
    graph: CoreGraph,
)
    requires
        graph == CoreGraph::Core2d ==> graph_2d,
        graph == CoreGraph::Core3d ==> graph_3d,
    ensures
        ({
            let steps = build_steps(true, graph_2d, graph_3d);
            exists|i: int| #[trigger]
                steps[i] == (graph, GraphStep::AddSubGraph(SubGraphUi)) && 0 <= i && i + 4
                    < steps.len() && steps[i + 1] == (graph, GraphStep::AddNode(NodeUi::UiPass))
                    && steps[i + 2] == (graph, GraphStep::AddEdge(main_pass(graph), ui_pass()))
                    && steps[i + 3] == (
                    graph,
                    GraphStep::AddEdge(GraphNode::EndMainPassPostProcessing, ui_pass()),
                ) && steps[i + 4] == (
                    graph,
                    GraphStep::AddEdge(ui_pass(), GraphNode::Upscaling),
                )
        }),
{
    let steps = build_steps(true, graph_2d, graph_3d);
    let i: int = if graph == CoreGraph::Core3d && graph_2d {
        5
    } else {
        0
    };
    assert(steps[i] == (graph, GraphStep::AddSubGraph(SubGraphUi)));
}

/// A graph that is there gets five changes, in this order: the graph of the interface, its step,
/// and the three that put the step in order. One that is not there gets none, nor does any without
/// an application that renders.
pub proof fn law_changes_of_the_graphs(graph_2d: bool, graph_3d: bool, i: int)
    requires
        0 <= i < 5,
    ensures
        build_steps(false, graph_2d, graph_3d).len() == 0,
        ({
            let steps = build_steps(true, graph_2d, graph_3d);
            let second = if graph_2d { 5int } else { 0 };
            let step = |main: GraphNode|
                if i == 0 {
                    GraphStep::AddSubGraph(SubGraphUi)
                } else if i == 1 {
                    GraphStep::AddNode(NodeUi::UiPass)
                } else if i == 2 {
                    GraphStep::AddEdge(main, GraphNode::Ui(NodeUi::UiPass))
                } else if i == 3 {
                    GraphStep::AddEdge(
                        GraphNode::EndMainPassPostProcessing,
                        GraphNode::Ui(NodeUi::UiPass),
                    )
                } else {
                    GraphStep::AddEdge(GraphNode::Ui(NodeUi::UiPass), GraphNode::Upscaling)
                };
            &&& steps.len() == second + if graph_3d { 5int } else { 0 }
            &&& graph_2d ==> steps[i] == (CoreGraph::Core2d, step(GraphNode::MainPass))
            &&& graph_3d ==> steps[second + i] == (
                CoreGraph::Core3d,
                step(GraphNode::EndMainPass),
            )
        }),
{
}

} // verus!
