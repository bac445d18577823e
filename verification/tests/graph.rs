use ui_render::graph::{
    build_ui_render, CoreGraph, GraphNode, GraphStep, NodeUi, RenderUiSystem, SubGraphUi,
};

fn steps(graph: CoreGraph, main: GraphNode) -> Vec<(CoreGraph, GraphStep)> {
    let ui = GraphNode::Ui(NodeUi::UiPass);
    vec![
        (graph, GraphStep::AddSubGraph(SubGraphUi)),
        (graph, GraphStep::AddNode(NodeUi::UiPass)),
        (graph, GraphStep::AddEdge(main, ui)),
        (
            graph,
            GraphStep::AddEdge(GraphNode::EndMainPassPostProcessing, ui),
        ),
        (graph, GraphStep::AddEdge(ui, GraphNode::Upscaling)),
    ]
}

#[test]
fn interface_is_put_into_both_graphs() {
    let mut both = steps(CoreGraph::Core2d, GraphNode::MainPass);
    both.extend(steps(CoreGraph::Core3d, GraphNode::EndMainPass));
    assert_eq!(build_ui_render(true, true, true), both);
}

#[test]
fn missing_graphs_are_left_alone() {
    assert_eq!(
        build_ui_render(true, true, false),
        steps(CoreGraph::Core2d, GraphNode::MainPass)
    );
    assert_eq!(
        build_ui_render(true, false, true),
        steps(CoreGraph::Core3d, GraphNode::EndMainPass)
    );
    assert!(build_ui_render(true, false, false).is_empty());
}

#[test]
fn nothing_is_built_without_an_application_that_renders() {
    assert!(build_ui_render(false, true, true).is_empty());
}

#[test]
fn labels() {
    assert_eq!(SubGraphUi, SubGraphUi);
    assert_eq!(NodeUi::UiPass, NodeUi::UiPass);
    assert_eq!(RenderUiSystem::ExtractNode, RenderUiSystem::ExtractNode);
}
