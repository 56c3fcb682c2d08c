//! End-to-end scenarios: trees built from XML and driven by ticks.

use behavior_tree::blackboard::Blackboards;
use behavior_tree::factory::{ActionRegex, Factory};
use behavior_tree::node::action::{ActionNode, ActionNodeImpl};
use behavior_tree::node::DataProxy;
use behavior_tree::parser::xml::create_bt_tree_from_xml_str;
use behavior_tree::tree::{BtTree, NodeVisitor, NodeWrapper, TreeNodeWrapper};
use behavior_tree::value::BtValue;
use behavior_tree::{BtError, NodeStatus};

/// A scripted test action: always succeeds, always fails, or runs once and
/// then succeeds.  It counts how often it was ticked.
struct TestAction {
    kind: u8,
    ticks: u32,
}

const KIND_SUCCESS: u8 = 0;
const KIND_FAILURE: u8 = 1;
const KIND_SECOND: u8 = 2;

impl ActionNodeImpl for TestAction {
    fn construct(elem_name: &str, _attrs: &Vec<(String, String)>) -> Option<TestAction> {
        let kind = match elem_name {
            "AlwaysSuccess" => KIND_SUCCESS,
            "AlwaysFailure" => KIND_FAILURE,
            "SucceedOnSecond" => KIND_SECOND,
            _ => {
                return None;
            },
        };
        Some(TestAction { kind, ticks: 0 })
    }

    fn tick_status(&mut self, _data_proxy: &mut DataProxy, _bb: &mut Blackboards) -> NodeStatus {
        self.ticks += 1;
        match self.kind {
            KIND_SUCCESS => NodeStatus::Success,
            KIND_FAILURE => NodeStatus::Failure,
            _ => {
                if self.ticks >= 2 {
                    NodeStatus::Success
                } else {
                    NodeStatus::Running
                }
            },
        }
    }

    fn halt(&mut self) {}
}

fn factory() -> Factory {
    let mut f = Factory::default();
    f.register_action_node_type(
        ActionRegex::try_new("^(AlwaysSuccess|AlwaysFailure|SucceedOnSecond)$").unwrap(),
    );
    f
}

fn build(xml: &str) -> BtTree<TestAction> {
    create_bt_tree_from_xml_str(&factory(), xml).unwrap().unwrap()
}

fn collect_ticks(node: &TreeNodeWrapper<TestAction>, out: &mut Vec<u32>) {
    match &node.node_wrapper {
        NodeWrapper::Composite(c) => {
            for child in c.child_nodes.iter() {
                collect_ticks(child, out);
            }
        },
        NodeWrapper::Decorator(d) => collect_ticks(&d.inner_node, out),
        NodeWrapper::Action(a) => {
            if let ActionNode::User(u) = &a.node {
                out.push(u.ticks);
            }
        },
    }
}

fn collect_uids(node: &TreeNodeWrapper<TestAction>, out: &mut Vec<u16>) {
    out.push(node.uid());
    match &node.node_wrapper {
        NodeWrapper::Composite(c) => {
            for child in c.child_nodes.iter() {
                collect_uids(child, out);
            }
        },
        NodeWrapper::Decorator(d) => collect_uids(&d.inner_node, out),
        NodeWrapper::Action(_) => {},
    }
}

fn collect_paths(node: &TreeNodeWrapper<TestAction>, out: &mut Vec<String>) {
    out.push(node.data_proxy_ref().full_path().to_string());
    match &node.node_wrapper {
        NodeWrapper::Composite(c) => {
            for child in c.child_nodes.iter() {
                collect_paths(child, out);
            }
        },
        NodeWrapper::Decorator(d) => collect_paths(&d.inner_node, out),
        NodeWrapper::Action(_) => {},
    }
}

fn collect_statuses(node: &TreeNodeWrapper<TestAction>, out: &mut Vec<NodeStatus>) {
    out.push(node.status());
    match &node.node_wrapper {
        NodeWrapper::Composite(c) => {
            for child in c.child_nodes.iter() {
                collect_statuses(child, out);
            }
        },
        NodeWrapper::Decorator(d) => collect_statuses(&d.inner_node, out),
        NodeWrapper::Action(_) => {},
    }
}

#[test]
fn empty_sequence_succeeds() {
    let mut tree = build(
        r#"<root main_tree_to_execute="main">
            <BehaviorTree ID="main"><Sequence/></BehaviorTree>
        </root>"#,
    );
    assert_eq!(tree.tick(), NodeStatus::Success);
}

#[test]
fn all_success_sequence() {
    let mut tree = build(
        r#"<root main_tree_to_execute="main">
            <BehaviorTree ID="main">
                <Sequence><AlwaysSuccess/><AlwaysSuccess/></Sequence>
            </BehaviorTree>
        </root>"#,
    );
    assert_eq!(tree.tick(), NodeStatus::Success);
    let mut ticks = Vec::new();
    collect_ticks(tree.root(), &mut ticks);
    assert_eq!(ticks, vec![1, 1]);
}

#[test]
fn sequence_waits_for_running_child() {
    let mut tree = build(
        r#"<root main_tree_to_execute="main">
            <BehaviorTree ID="main">
                <Sequence><SucceedOnSecond/><AlwaysSuccess/></Sequence>
            </BehaviorTree>
        </root>"#,
    );
    assert_eq!(tree.tick(), NodeStatus::Running);
    let mut ticks = Vec::new();
    collect_ticks(tree.root(), &mut ticks);
    assert_eq!(ticks, vec![1, 0], "the second child must not be ticked yet");
    assert_eq!(tree.tick(), NodeStatus::Success);
    let mut ticks = Vec::new();
    collect_ticks(tree.root(), &mut ticks);
    assert_eq!(ticks, vec![2, 1]);
}

#[test]
fn sequence_fails_on_first_failure() {
    let mut tree = build(
        r#"<root main_tree_to_execute="main">
            <BehaviorTree ID="main">
                <Sequence><AlwaysSuccess/><AlwaysFailure/><AlwaysSuccess/></Sequence>
            </BehaviorTree>
        </root>"#,
    );
    assert_eq!(tree.tick(), NodeStatus::Failure);
    let mut ticks = Vec::new();
    collect_ticks(tree.root(), &mut ticks);
    assert_eq!(ticks, vec![1, 1, 0], "children after the failure stay unticked");
}

#[test]
fn fallback_stops_at_first_success() {
    let mut tree = build(
        r#"<root main_tree_to_execute="main">
            <BehaviorTree ID="main">
                <Fallback><AlwaysFailure/><AlwaysSuccess/><AlwaysSuccess/></Fallback>
            </BehaviorTree>
        </root>"#,
    );
    assert_eq!(tree.tick(), NodeStatus::Success);
    let mut ticks = Vec::new();
    collect_ticks(tree.root(), &mut ticks);
    assert_eq!(ticks, vec![1, 1, 0]);
}

#[test]
fn fallback_fails_when_all_fail() {
    let mut tree = build(
        r#"<root main_tree_to_execute="main">
            <BehaviorTree ID="main">
                <Fallback><AlwaysFailure/><AlwaysFailure/></Fallback>
            </BehaviorTree>
        </root>"#,
    );
    assert_eq!(tree.tick(), NodeStatus::Failure);
}

#[test]
fn repeat_three_cycles() {
    let mut tree = build(
        r#"<root main_tree_to_execute="main">
            <BehaviorTree ID="main">
                <Repeat num_cycles="3"><AlwaysSuccess/></Repeat>
            </BehaviorTree>
        </root>"#,
    );
    assert_eq!(tree.tick(), NodeStatus::Running);
    assert_eq!(tree.tick(), NodeStatus::Running);
    assert_eq!(tree.tick(), NodeStatus::Success);
    let mut ticks = Vec::new();
    collect_ticks(tree.root(), &mut ticks);
    assert_eq!(ticks, vec![3]);
}

#[test]
fn repeat_zero_cycles_succeeds_without_ticking() {
    let mut tree = build(
        r#"<root main_tree_to_execute="main">
            <BehaviorTree ID="main">
                <Repeat num_cycles="0"><AlwaysSuccess/></Repeat>
            </BehaviorTree>
        </root>"#,
    );
    assert_eq!(tree.tick(), NodeStatus::Success);
    let mut ticks = Vec::new();
    collect_ticks(tree.root(), &mut ticks);
    assert_eq!(ticks, vec![0]);
}

#[test]
fn retry_spends_exactly_its_attempts() {
    let mut tree = build(
        r#"<root main_tree_to_execute="main">
            <BehaviorTree ID="main">
                <RetryUntilSuccessful num_attempts="3"><AlwaysFailure/></RetryUntilSuccessful>
            </BehaviorTree>
        </root>"#,
    );
    assert_eq!(tree.tick(), NodeStatus::Failure);
    let mut ticks = Vec::new();
    collect_ticks(tree.root(), &mut ticks);
    assert_eq!(ticks, vec![3]);
}

#[test]
fn retry_zero_attempts_fails_without_ticking() {
    let mut tree = build(
        r#"<root main_tree_to_execute="main">
            <BehaviorTree ID="main">
                <RetryUntilSuccessful num_attempts="0"><AlwaysSuccess/></RetryUntilSuccessful>
            </BehaviorTree>
        </root>"#,
    );
    assert_eq!(tree.tick(), NodeStatus::Failure);
    let mut ticks = Vec::new();
    collect_ticks(tree.root(), &mut ticks);
    assert_eq!(ticks, vec![0]);
}

#[test]
fn parallel_reaches_failure_threshold_first() {
    let mut tree = build(
        r#"<root main_tree_to_execute="main">
            <BehaviorTree ID="main">
                <Parallel success_count="1" failure_count="2">
                    <AlwaysFailure/><AlwaysFailure/><AlwaysSuccess/>
                </Parallel>
            </BehaviorTree>
        </root>"#,
    );
    // children are visited in declaration order, so the second failure is
    // observed before the success
    assert_eq!(tree.tick(), NodeStatus::Failure);
    let mut ticks = Vec::new();
    collect_ticks(tree.root(), &mut ticks);
    assert_eq!(ticks, vec![1, 1, 0]);
}

#[test]
fn parallel_success_threshold() {
    let mut tree = build(
        r#"<root main_tree_to_execute="main">
            <BehaviorTree ID="main">
                <Parallel success_count="1" failure_count="2">
                    <AlwaysSuccess/><AlwaysFailure/><AlwaysFailure/>
                </Parallel>
            </BehaviorTree>
        </root>"#,
    );
    assert_eq!(tree.tick(), NodeStatus::Success);
}

#[test]
fn inverter_swaps_completed_statuses() {
    let mut tree = build(
        r#"<root main_tree_to_execute="main">
            <BehaviorTree ID="main"><Inverter><AlwaysSuccess/></Inverter></BehaviorTree>
        </root>"#,
    );
    assert_eq!(tree.tick(), NodeStatus::Failure);
    let mut tree = build(
        r#"<root main_tree_to_execute="main">
            <BehaviorTree ID="main"><Inverter><AlwaysFailure/></Inverter></BehaviorTree>
        </root>"#,
    );
    assert_eq!(tree.tick(), NodeStatus::Success);
}

#[test]
fn double_inversion_restores_the_status() {
    let mut tree = build(
        r#"<root main_tree_to_execute="main">
            <BehaviorTree ID="main">
                <Inverter><Inverter><AlwaysFailure/></Inverter></Inverter>
            </BehaviorTree>
        </root>"#,
    );
    assert_eq!(tree.tick(), NodeStatus::Failure);
}

#[test]
fn force_nodes_override_statuses() {
    let mut tree = build(
        r#"<root main_tree_to_execute="main">
            <BehaviorTree ID="main"><ForceSuccess><AlwaysFailure/></ForceSuccess></BehaviorTree>
        </root>"#,
    );
    assert_eq!(tree.tick(), NodeStatus::Success);
    let mut tree = build(
        r#"<root main_tree_to_execute="main">
            <BehaviorTree ID="main"><ForceFailure><AlwaysSuccess/></ForceFailure></BehaviorTree>
        </root>"#,
    );
    assert_eq!(tree.tick(), NodeStatus::Failure);
}

#[test]
fn set_blackboard_writes_its_value() {
    let mut tree = build(
        r#"<root main_tree_to_execute="main">
            <BehaviorTree ID="main">
                <SetBlackboard output_key="x" value="42"/>
            </BehaviorTree>
        </root>"#,
    );
    assert_eq!(tree.tick(), NodeStatus::Success);
    match tree.get_entry(0, "x") {
        Some(BtValue::Str(s)) => assert_eq!(s, "42"),
        _ => panic!("missing blackboard entry"),
    }
}

#[test]
fn subtree_remapping_routes_to_the_parent_scope() {
    let mut tree = build(
        r#"<root main_tree_to_execute="main">
            <BehaviorTree ID="main">
                <Sequence>
                    <SetBlackboard output_key="x" value="42"/>
                    <SubTree ID="child" y="{x}"/>
                </Sequence>
            </BehaviorTree>
            <BehaviorTree ID="child">
                <SetBlackboard output_key="out" value="{y}"/>
            </BehaviorTree>
        </root>"#,
    );
    assert_eq!(tree.tick(), NodeStatus::Success);
    // the child read `y` through the remapping to the parent's `x`
    match tree.get_entry(1, "out") {
        Some(BtValue::Str(s)) => assert_eq!(s, "42"),
        _ => panic!("missing blackboard entry in the child scope"),
    }
    // the child's write is invisible to the parent scope
    assert!(tree.get_entry(0, "out").is_none());
}

#[test]
fn uids_are_distinct_and_preorder() {
    let tree = build(
        r#"<root main_tree_to_execute="main">
            <BehaviorTree ID="main">
                <Sequence>
                    <AlwaysSuccess/>
                    <Fallback><AlwaysFailure/><AlwaysSuccess/></Fallback>
                    <Inverter><AlwaysFailure/></Inverter>
                </Sequence>
            </BehaviorTree>
        </root>"#,
    );
    let mut uids = Vec::new();
    collect_uids(tree.root(), &mut uids);
    assert_eq!(uids, vec![0, 1, 2, 3, 4, 5, 6]);
    let mut sorted = uids.clone();
    sorted.sort();
    sorted.dedup();
    assert_eq!(sorted.len(), uids.len(), "uids must be pairwise distinct");
}

#[test]
fn full_paths_join_element_names() {
    let tree = build(
        r#"<root main_tree_to_execute="main">
            <BehaviorTree ID="main">
                <Sequence>
                    <AlwaysSuccess/>
                    <Inverter><AlwaysFailure/></Inverter>
                </Sequence>
            </BehaviorTree>
        </root>"#,
    );
    let mut paths = Vec::new();
    collect_paths(tree.root(), &mut paths);
    assert_eq!(
        paths,
        vec![
            String::from("Sequence"),
            String::from("Sequence/AlwaysSuccess"),
            String::from("Sequence/Inverter"),
            String::from("Sequence/Inverter/AlwaysFailure"),
        ],
    );
    assert_eq!(tree.root().path(), "Sequence");
}

#[test]
fn subtree_paths_continue_below_the_border() {
    let tree = build(
        r#"<root main_tree_to_execute="main">
            <BehaviorTree ID="main">
                <Sequence><SubTree ID="child"/></Sequence>
            </BehaviorTree>
            <BehaviorTree ID="child"><AlwaysSuccess/></BehaviorTree>
        </root>"#,
    );
    let mut paths = Vec::new();
    collect_paths(tree.root(), &mut paths);
    assert_eq!(
        paths,
        vec![
            String::from("Sequence"),
            String::from("Sequence/SubTree"),
            String::from("Sequence/SubTree/AlwaysSuccess"),
        ],
    );
}

#[test]
fn halt_twice_equals_halt_once() {
    let mut tree = build(
        r#"<root main_tree_to_execute="main">
            <BehaviorTree ID="main">
                <Sequence><SucceedOnSecond/><AlwaysSuccess/></Sequence>
            </BehaviorTree>
        </root>"#,
    );
    assert_eq!(tree.tick(), NodeStatus::Running);
    tree.halt();
    let mut first = Vec::new();
    collect_statuses(tree.root(), &mut first);
    tree.halt();
    let mut second = Vec::new();
    collect_statuses(tree.root(), &mut second);
    assert_eq!(first, second);
    // every node below the root is back at Idle
    assert!(first[1..].iter().all(|s| *s == NodeStatus::Idle));
}

#[test]
fn completed_tree_can_run_again() {
    let mut tree = build(
        r#"<root main_tree_to_execute="main">
            <BehaviorTree ID="main">
                <Sequence><AlwaysSuccess/><AlwaysSuccess/></Sequence>
            </BehaviorTree>
        </root>"#,
    );
    assert_eq!(tree.tick(), NodeStatus::Success);
    assert_eq!(tree.tick(), NodeStatus::Success);
    let mut ticks = Vec::new();
    collect_ticks(tree.root(), &mut ticks);
    assert_eq!(ticks, vec![2, 2]);
}

#[test]
fn observers_see_status_changes() {
    let mut tree = build(
        r#"<root main_tree_to_execute="main">
            <BehaviorTree ID="main">
                <Sequence><AlwaysSuccess/></Sequence>
            </BehaviorTree>
        </root>"#,
    );
    let rx = tree.root().data_proxy_ref().add_observer();
    let uid = tree.root().uid();
    assert_eq!(tree.tick(), NodeStatus::Success);
    let last = *rx.borrow();
    assert_eq!(last.uid, uid);
    assert_eq!(last.new_status, NodeStatus::Success);
}

#[test]
fn node_info_lists_uids_and_paths() {
    let tree = build(
        r#"<root main_tree_to_execute="main">
            <BehaviorTree ID="main">
                <Sequence><AlwaysSuccess/></Sequence>
            </BehaviorTree>
        </root>"#,
    );
    let info = tree.root().node_info();
    assert!(info.contains("uid= 0 path= Sequence"));
    assert!(info.contains("uid= 1 path= Sequence/AlwaysSuccess"));
    let dot = tree.root().dot_info();
    assert!(dot.starts_with("digraph G {"));
    assert!(dot.contains("\"0_Sequence\" -> \"1_AlwaysSuccess\";"));
    assert!(dot.ends_with("}"));
}

#[test]
fn build_errors() {
    let f: Factory = factory();
    // malformed XML
    assert!(matches!(
        create_bt_tree_from_xml_str::<TestAction>(&f, "<root"),
        Err(BtError::Xml(_)),
    ));
    // no root element
    assert!(matches!(
        create_bt_tree_from_xml_str::<TestAction>(&f, "<a></a>"),
        Err(BtError::Raw(_)),
    ));
    // a BehaviorTree without an ID
    assert!(
        create_bt_tree_from_xml_str::<TestAction>(
            &f,
            r#"<root><BehaviorTree><Sequence/></BehaviorTree></root>"#,
        ).is_err()
    );
    // an unknown element name
    assert!(
        create_bt_tree_from_xml_str::<TestAction>(
            &f,
            r#"<root main_tree_to_execute="m"><BehaviorTree ID="m"><Nonsense/></BehaviorTree></root>"#,
        ).is_err()
    );
    // a SubTree reference to a missing tree
    assert!(
        create_bt_tree_from_xml_str::<TestAction>(
            &f,
            r#"<root main_tree_to_execute="m"><BehaviorTree ID="m"><SubTree ID="ghost"/></BehaviorTree></root>"#,
        ).is_err()
    );
    // a SubTree without an ID
    assert!(
        create_bt_tree_from_xml_str::<TestAction>(
            &f,
            r#"<root main_tree_to_execute="m"><BehaviorTree ID="m"><SubTree/></BehaviorTree></root>"#,
        ).is_err()
    );
    // mutually recursive subtree references cannot build
    assert!(
        create_bt_tree_from_xml_str::<TestAction>(
            &f,
            r#"<root main_tree_to_execute="a">
                <BehaviorTree ID="a"><SubTree ID="b"/></BehaviorTree>
                <BehaviorTree ID="b"><SubTree ID="a"/></BehaviorTree>
            </root>"#,
        ).is_err()
    );
}

#[test]
fn declaration_and_comments_are_skipped() {
    let mut tree = build(
        r#"<?xml version="1.0" encoding="UTF-8"?>
        <root BTCPP_format="4" main_tree_to_execute="main">
            <!-- a comment -->
            <BehaviorTree ID="main"><Sequence><AlwaysSuccess/></Sequence></BehaviorTree>
        </root>"#,
    );
    assert_eq!(tree.tick(), NodeStatus::Success);
}

struct DepthCollector {
    seen: Vec<(u16, u16)>,
}

impl NodeVisitor<TestAction> for DepthCollector {
    fn visit(&mut self, node: &TreeNodeWrapper<TestAction>, depth: u16) {
        self.seen.push((node.uid(), depth));
    }
}

#[test]
fn visitor_walks_preorder_with_depths() {
    let tree = build(
        r#"<root main_tree_to_execute="main">
            <BehaviorTree ID="main">
                <Sequence>
                    <AlwaysSuccess/>
                    <Inverter><AlwaysFailure/></Inverter>
                </Sequence>
            </BehaviorTree>
        </root>"#,
    );
    let mut v = DepthCollector { seen: Vec::new() };
    tree.root().apply_recursive_visitor(&mut v);
    assert_eq!(v.seen, vec![(0, 0), (1, 1), (2, 1), (3, 2)]);
}

#[test]
fn later_attribute_wins_for_a_repeated_key() {
    let mut tree = build(
        r#"<root main_tree_to_execute="main">
            <BehaviorTree ID="main">
                <SetBlackboard output_key="a" output_key="b" value="v"/>
            </BehaviorTree>
        </root>"#,
    );
    assert_eq!(tree.tick(), NodeStatus::Success);
    assert!(tree.get_entry(0, "a").is_none());
    match tree.get_entry(0, "b") {
        Some(BtValue::Str(s)) => assert_eq!(s, "v"),
        _ => panic!("missing blackboard entry"),
    }
}

#[test]
fn error_messages_describe_the_failure() {
    let f: Factory = factory();
    match create_bt_tree_from_xml_str::<TestAction>(&f, "no xml at all") {
        Err(err) => assert!(!err.message().is_empty()),
        Ok(_) => panic!("an input without a root element must not build"),
    }
}

#[test]
fn nested_subtrees_reuse_a_tree_and_keep_uids_distinct() {
    let mut f = Factory::default();
    f.register_action_node_type(ActionRegex::try_new("PrintBody").unwrap());
    f.register_action_node_type(ActionRegex::try_new("PrintArm").unwrap());
    let xml = r#"<?xml version="1.0" encoding="UTF-8"?>
    <root BTCPP_format="4" main_tree_to_execute="main">
        <BehaviorTree ID="main">
            <Sequence>
                <PrintBody body="body"/>
                <PrintArm arm="left_arm"/>
                <Sequence>
                    <PrintArm arm="{arm}"/>
                    <ForceSuccess>
                        <PrintBody body="{body}"/>
                    </ForceSuccess>
                    <SubTree ID="bbb"/>
                </Sequence>
            </Sequence>
        </BehaviorTree>
        <BehaviorTree ID="aaa">
            <PrintBody body="body"/>
        </BehaviorTree>
        <BehaviorTree ID="bbb">
            <Sequence>
                <SubTree ID="aaa"/>
                <PrintArm arm="arm"/>
                <SubTree ID="aaa"/>
            </Sequence>
        </BehaviorTree>
    </root>"#;
    let mut tree: BtTree<PrintAction> = create_bt_tree_from_xml_str(&f, xml).unwrap().unwrap();
    assert_eq!(tree.tick(), NodeStatus::Success);
    // one scope for the main tree, one for bbb, one per use of aaa
    assert_eq!(tree.n_scopes(), 4);
    let mut uids = Vec::new();
    collect_print_uids(tree.root(), &mut uids);
    let mut sorted = uids.clone();
    sorted.sort();
    sorted.dedup();
    assert_eq!(sorted.len(), uids.len(), "uids must be pairwise distinct");
}

/// An action succeeding on every tick, for the nested-subtree test.
struct PrintAction;

impl ActionNodeImpl for PrintAction {
    fn construct(elem_name: &str, _attrs: &Vec<(String, String)>) -> Option<PrintAction> {
        match elem_name {
            "PrintBody" | "PrintArm" => Some(PrintAction),
            _ => None,
        }
    }

    fn tick_status(&mut self, _data_proxy: &mut DataProxy, _bb: &mut Blackboards) -> NodeStatus {
        NodeStatus::Success
    }

    fn halt(&mut self) {}
}

fn collect_print_uids(node: &TreeNodeWrapper<PrintAction>, out: &mut Vec<u16>) {
    out.push(node.uid());
    match &node.node_wrapper {
        NodeWrapper::Composite(c) => {
            for child in c.child_nodes.iter() {
                collect_print_uids(child, out);
            }
        },
        NodeWrapper::Decorator(d) => collect_print_uids(&d.inner_node, out),
        NodeWrapper::Action(_) => {},
    }
}
