use std::cell::RefCell;

use syntax_cursor::cursor::{RCursor, TreeOrNode};
use syntax_cursor::driver::traverse_mapc;
use syntax_cursor::projection::{
    project, project_into, read_property, ProjectionError, Property, PropertyValue,
};
use syntax_cursor::traversal::{DepthFirstIterator, TraversalState};
use tree_sitter::{Node, Parser, Tree};

const SOURCE: &str = "[1, {\"a\": null}]";

fn parse(source: &str) -> Tree {
    let mut parser = Parser::new();
    parser
        .set_language(&tree_sitter_json::LANGUAGE.into())
        .expect("the grammar loads");
    parser.parse(source, None).expect("the source parses")
}

/// Pre-order by recursion over the node API, to hold the state machine to.
fn collect(node: Node, depth: usize, into: &mut Vec<(String, usize, usize)>) {
    into.push((node.kind().to_string(), node.start_byte(), depth));
    for i in 0..node.child_count() {
        collect(node.child(i as u32).unwrap(), depth + 1, into);
    }
}

fn run(start: TreeOrNode) -> Vec<(String, usize, usize)> {
    let mut it = DepthFirstIterator::new(start);
    let mut seen = Vec::new();
    while let Some((node, depth)) = it.next() {
        seen.push((node.kind().to_string(), node.start_byte(), depth));
    }
    seen
}

fn kinds(items: &[(String, usize, usize)]) -> Vec<(&str, usize)> {
    items.iter().map(|(k, _, d)| (k.as_str(), *d)).collect()
}

#[test]
fn new_cursor_stands_on_the_root() {
    let tree = parse(SOURCE);
    let cursor = RCursor::new(&tree);
    let node = cursor.current_node();
    assert_eq!(node.kind(), "document");
    assert_eq!(node.start_byte(), 0);
    assert_eq!(node.end_byte(), SOURCE.len());
    assert_eq!(node, tree.root_node());
    assert_eq!(cursor.current_field_id(), None);
    assert_eq!(cursor.current_field(), None);
}

#[test]
fn walk_from_a_tree_and_from_a_node() {
    let tree = parse(SOURCE);
    let array = tree.root_node().child(0).unwrap();
    let from_tree = TreeOrNode::Tree(&tree).walk();
    assert_eq!(from_tree.current_node(), tree.root_node());
    let mut from_node = TreeOrNode::Node(array).walk();
    assert_eq!(from_node.current_node(), array);
    assert!(!from_node.goto_parent());
    assert!(!from_node.goto_next_sibling());
    assert_eq!(from_node.current_node(), array);
}

#[test]
fn moves_say_whether_they_moved() {
    let tree = parse(SOURCE);
    let mut cursor = RCursor::new(&tree);
    assert!(!cursor.goto_next_sibling());
    assert!(cursor.goto_first_child());
    assert_eq!(cursor.current_node().kind(), "array");
    assert!(!cursor.goto_next_sibling());
    assert!(cursor.goto_first_child());
    assert_eq!(cursor.current_node().kind(), "[");
    assert!(!cursor.goto_first_child());
    assert_eq!(cursor.current_node().kind(), "[");
    assert!(cursor.goto_next_sibling());
    assert_eq!(cursor.current_node().kind(), "number");
    assert!(cursor.goto_next_sibling());
    assert_eq!(cursor.current_node().kind(), ",");
    assert!(cursor.goto_next_sibling());
    assert_eq!(cursor.current_node().kind(), "object");
    assert!(cursor.goto_next_sibling());
    assert_eq!(cursor.current_node().kind(), "]");
    assert!(!cursor.goto_next_sibling());
    assert_eq!(cursor.current_node().kind(), "]");
    assert_eq!(cursor.borrow().node().kind(), "]");
}

#[test]
fn parents_lead_to_the_root_and_then_fail() {
    let tree = parse(SOURCE);
    let mut cursor = RCursor::new(&tree);
    let mut depth = 0;
    while cursor.goto_first_child() || cursor.goto_next_sibling() {
        if cursor.current_node().kind() == "string_content" {
            break;
        }
    }
    let mut probe = cursor.current_node();
    while let Some(parent) = probe.parent() {
        probe = parent;
        depth += 1;
    }
    assert_eq!(depth, 5);
    for _ in 0..depth {
        assert!(cursor.goto_parent());
    }
    assert_eq!(cursor.current_node(), tree.root_node());
    assert!(!cursor.goto_parent());
    assert_eq!(cursor.current_node(), tree.root_node());
}

#[test]
fn traversal_is_pre_order() {
    let tree = parse("[] 1");
    let seen = run(TreeOrNode::Tree(&tree));
    assert_eq!(
        kinds(&seen),
        vec![("document", 0), ("array", 1), ("[", 2), ("]", 2), ("number", 1)]
    );
}

#[test]
fn traversal_matches_recursion() {
    let tree = parse(SOURCE);
    let mut expected = Vec::new();
    collect(tree.root_node(), 0, &mut expected);
    let seen = run(TreeOrNode::Tree(&tree));
    assert_eq!(seen.len(), 16);
    assert_eq!(seen, expected);
    assert_eq!(
        kinds(&seen),
        vec![
            ("document", 0),
            ("array", 1),
            ("[", 2),
            ("number", 2),
            (",", 2),
            ("object", 2),
            ("{", 3),
            ("pair", 3),
            ("string", 4),
            ("\"", 5),
            ("string_content", 5),
            ("\"", 5),
            (":", 4),
            ("null", 4),
            ("}", 3),
            ("]", 2),
        ]
    );
}

#[test]
fn traversal_of_a_node_stays_below_it() {
    let tree = parse(SOURCE);
    let object = tree.root_node().child(0).unwrap().child(3).unwrap();
    assert_eq!(object.kind(), "object");
    let mut expected = Vec::new();
    collect(object, 0, &mut expected);
    let seen = run(TreeOrNode::Node(object));
    assert_eq!(seen, expected);
    assert_eq!(seen.len(), 10);
    assert_eq!(seen[0].2, 0);
}

#[test]
fn leaf_yields_itself_once() {
    let tree = parse(SOURCE);
    let leaf = tree.root_node().child(0).unwrap().child(1).unwrap();
    assert_eq!(leaf.child_count(), 0);
    let mut it = DepthFirstIterator::new(TreeOrNode::Node(leaf));
    assert_eq!(it.current_state(), TraversalState::Start);
    assert_eq!(it.next(), Some((leaf, 0)));
    assert_eq!(it.current_state(), TraversalState::Down);
    assert_eq!(it.next(), None);
    assert_eq!(it.current_state(), TraversalState::Done);
    assert_eq!(it.next(), None);
}

#[test]
fn close_ends_the_traversal() {
    let tree = parse(SOURCE);
    let mut it = DepthFirstIterator::new(TreeOrNode::Tree(&tree));
    assert!(it.next().is_some());
    let second = it.next();
    assert_eq!(second.map(|(n, d)| (n.kind(), d)), Some(("array", 1)));
    it.close();
    assert_eq!(it.current_state(), TraversalState::Done);
    assert_eq!(it.current_depth(), 1);
    assert_eq!(it.cursor_ref().current_node().kind(), "array");
    for _ in 0..5 {
        assert_eq!(it.next(), None);
    }
    let props = vec![Property::Type];
    let mut output = vec![PropertyValue::Nil];
    assert_eq!(it.next_node(&props, &mut output), Ok(false));
    assert_eq!(output, vec![PropertyValue::Nil]);
}

#[test]
fn item_is_the_current_node_with_its_depth() {
    let tree = parse(SOURCE);
    let mut it = DepthFirstIterator::new(TreeOrNode::Tree(&tree));
    assert_eq!(it.item(), Some((tree.root_node(), 0)));
    it.next();
    it.next();
    it.next();
    let item = it.item().unwrap();
    assert_eq!(item.0.kind(), "[");
    assert_eq!(item.1, 2);
}

#[test]
fn exhausted_traversal_rests_on_the_start() {
    let tree = parse(SOURCE);
    let mut it = DepthFirstIterator::new(TreeOrNode::Tree(&tree));
    while it.next().is_some() {}
    assert_eq!(it.current_depth(), 0);
    assert_eq!(it.cursor_ref().current_node(), tree.root_node());
}

#[test]
fn first_child_for_byte() {
    let tree = parse(SOURCE);
    let mut cursor = RCursor::new(&tree);
    assert!(cursor.goto_first_child());
    assert_eq!(cursor.goto_first_child_for_byte(5), Some(3));
    assert_eq!(cursor.current_node().kind(), "object");
    assert!(cursor.goto_parent());
    assert_eq!(cursor.goto_first_child_for_byte(0), Some(0));
    assert_eq!(cursor.current_node().kind(), "[");
    assert_eq!(cursor.goto_first_child_for_byte(0), None);
    assert_eq!(cursor.current_node().kind(), "[");
    assert!(cursor.goto_parent());
    assert_eq!(cursor.goto_first_child_for_byte(1), Some(1));
    assert_eq!(cursor.current_node().kind(), "number");
    assert!(cursor.goto_parent());
    assert_eq!(cursor.goto_first_child_for_byte(SOURCE.len() + 10), None);
    assert_eq!(cursor.current_node().kind(), "array");
}

#[test]
fn reset_moves_to_another_node() {
    let tree = parse(SOURCE);
    let object = tree.root_node().child(0).unwrap().child(3).unwrap();
    let mut cursor = RCursor::new(&tree);
    assert!(cursor.goto_first_child());
    cursor.reset(object);
    assert_eq!(cursor.current_node(), object);
    assert!(!cursor.goto_parent());
    assert!(cursor.goto_first_child());
    assert_eq!(cursor.current_node().kind(), "{");
}

#[test]
fn fields_of_a_pair() {
    let tree = parse(SOURCE);
    let pair = tree.root_node().child(0).unwrap().child(3).unwrap().child(1).unwrap();
    assert_eq!(pair.kind(), "pair");
    let mut cursor = TreeOrNode::Node(pair).walk();
    assert!(cursor.goto_first_child());
    assert_eq!(cursor.current_field(), Some("key".to_string()));
    assert!(cursor.current_field_id().is_some());
    assert_eq!(read_property(&cursor, Property::Field), PropertyValue::Text("key".to_string()));
    assert!(cursor.goto_next_sibling());
    assert_eq!(cursor.current_field(), None);
    assert_eq!(cursor.current_field_id(), None);
    assert_eq!(read_property(&cursor, Property::Field), PropertyValue::Nil);
    assert!(cursor.goto_next_sibling());
    assert_eq!(cursor.current_field(), Some("value".to_string()));
}

#[test]
fn every_property_reads_exactly() {
    let tree = parse("[1,\n true]");
    let mut cursor = RCursor::new(&tree);
    assert!(cursor.goto_first_child());
    assert_eq!(cursor.goto_first_child_for_byte(5), Some(3));
    let props = vec![
        Property::Type,
        Property::NamedP,
        Property::ExtraP,
        Property::ErrorP,
        Property::MissingP,
        Property::HasErrorP,
        Property::StartByte,
        Property::StartPoint,
        Property::EndByte,
        Property::EndPoint,
        Property::Range,
        Property::ByteRange,
        Property::Field,
        Property::Depth,
        Property::Unknown,
    ];
    assert_eq!(
        project(&cursor, &props),
        vec![
            PropertyValue::Text("true".to_string()),
            PropertyValue::Bool(true),
            PropertyValue::Bool(false),
            PropertyValue::Bool(false),
            PropertyValue::Bool(false),
            PropertyValue::Bool(false),
            PropertyValue::Integer(5),
            PropertyValue::Point(1, 1),
            PropertyValue::Integer(9),
            PropertyValue::Point(1, 5),
            PropertyValue::PointRange(1, 1, 1, 5),
            PropertyValue::ByteRange(5, 9),
            PropertyValue::Nil,
            PropertyValue::Nil,
            PropertyValue::Nil,
        ]
    );
    assert!(cursor.goto_parent());
    assert!(cursor.goto_first_child());
    assert_eq!(read_property(&cursor, Property::NamedP), PropertyValue::Bool(false));
    assert_eq!(read_property(&cursor, Property::Type), PropertyValue::Text("[".to_string()));
}

#[test]
fn error_flags_of_a_broken_source() {
    let tree = parse("[1, }");
    let cursor = RCursor::new(&tree);
    assert_eq!(read_property(&cursor, Property::HasErrorP), PropertyValue::Bool(true));
    assert_eq!(read_property(&cursor, Property::ErrorP), PropertyValue::Bool(false));
    let seen = run(TreeOrNode::Tree(&tree));
    assert!(seen.iter().any(|(kind, _, _)| kind == "ERROR"));
}

#[test]
fn projection_overwrites_the_buffer() {
    let tree = parse(SOURCE);
    let mut cursor = RCursor::new(&tree);
    let props = vec![Property::Type, Property::StartByte, Property::EndByte];
    let mut output = vec![PropertyValue::Nil, PropertyValue::Nil, PropertyValue::Nil, PropertyValue::Bool(true)];
    assert_eq!(project_into(&cursor, &props, &mut output), Ok(()));
    assert_eq!(
        output,
        vec![
            PropertyValue::Text("document".to_string()),
            PropertyValue::Integer(0),
            PropertyValue::Integer(16),
            PropertyValue::Bool(true),
        ]
    );
    assert!(cursor.goto_first_child());
    assert_eq!(cursor.goto_first_child_for_byte(5), Some(3));
    assert_eq!(project_into(&cursor, &props, &mut output), Ok(()));
    assert_eq!(
        output,
        vec![
            PropertyValue::Text("object".to_string()),
            PropertyValue::Integer(4),
            PropertyValue::Integer(15),
            PropertyValue::Bool(true),
        ]
    );
}

#[test]
fn short_buffer_is_an_error() {
    let tree = parse(SOURCE);
    let cursor = RCursor::new(&tree);
    let props = vec![Property::Type, Property::Depth, Property::EndByte];
    let mut output = vec![PropertyValue::Nil];
    assert_eq!(
        project_into(&cursor, &props, &mut output),
        Err(ProjectionError::OutOfRange(1))
    );
    assert_eq!(output, vec![PropertyValue::Text("document".to_string())]);
    let mut it = DepthFirstIterator::new(TreeOrNode::Tree(&tree));
    let mut two = vec![PropertyValue::Bool(false), PropertyValue::Bool(false)];
    assert_eq!(it.next_node(&props, &mut two), Err(ProjectionError::OutOfRange(2)));
    assert_eq!(
        two,
        vec![PropertyValue::Text("document".to_string()), PropertyValue::Nil]
    );
    let mut none: Vec<PropertyValue> = Vec::new();
    assert_eq!(it.current_node(&props, &mut none), Err(ProjectionError::OutOfRange(0)));
    assert_eq!(project_into(&cursor, &Vec::new(), &mut none), Ok(()));
}

#[test]
fn bulk_steps_visit_every_node_once() {
    let tree = parse(SOURCE);
    let mut expected = Vec::new();
    collect(tree.root_node(), 0, &mut expected);
    let props = vec![Property::Depth, Property::Type, Property::StartByte, Property::Depth];
    let mut output = vec![PropertyValue::Nil; 4];
    let mut it = DepthFirstIterator::new(TreeOrNode::Tree(&tree));
    let mut calls = 0;
    while it.next_node(&props, &mut output) == Ok(true) {
        let (kind, start, depth) = &expected[calls];
        assert_eq!(
            output,
            vec![
                PropertyValue::Integer(*depth),
                PropertyValue::Text(kind.clone()),
                PropertyValue::Integer(*start),
                PropertyValue::Integer(*depth),
            ]
        );
        assert_eq!(it.current_depth(), *depth);
        calls += 1;
    }
    assert_eq!(calls, expected.len());
    assert_eq!(calls, 16);
    assert_eq!(it.next_node(&props, &mut output), Ok(false));
}

#[test]
fn current_node_of_a_traversal_knows_the_depth() {
    let tree = parse(SOURCE);
    let mut it = DepthFirstIterator::new(TreeOrNode::Tree(&tree));
    it.next();
    it.next();
    it.next();
    let props = vec![Property::Depth, Property::Type];
    let mut output = vec![PropertyValue::Nil, PropertyValue::Nil, PropertyValue::Integer(7)];
    assert_eq!(it.current_node(&props, &mut output), Ok(()));
    assert_eq!(
        output,
        vec![
            PropertyValue::Integer(2),
            PropertyValue::Text("[".to_string()),
            PropertyValue::Integer(7),
        ]
    );
    assert_eq!(
        project(it.cursor_ref(), &props),
        vec![PropertyValue::Nil, PropertyValue::Text("[".to_string())]
    );
}

#[test]
fn two_traversals_of_one_tree_agree() {
    let tree = parse(SOURCE);
    let first = run(TreeOrNode::Tree(&tree));
    let second = run(TreeOrNode::Tree(&tree));
    assert_eq!(first, second);
    let mut cursor = RCursor::new(&tree);
    while cursor.goto_first_child() {}
    while cursor.goto_parent() {}
    assert_eq!(run(TreeOrNode::Tree(&tree)), first);
    assert_eq!(tree.root_node().to_sexp(), parse(SOURCE).root_node().to_sexp());
}

#[test]
fn bulk_traversal_calls_the_handler_for_every_node() {
    let tree = parse(SOURCE);
    let mut expected = Vec::new();
    collect(tree.root_node(), 0, &mut expected);
    let props = vec![Property::Type, Property::StartByte, Property::Depth];
    let rows: RefCell<Vec<(String, Vec<PropertyValue>)>> = RefCell::new(Vec::new());
    let handler = |node: Node, row: &Vec<PropertyValue>| -> Result<(), String> {
        rows.borrow_mut().push((node.kind().to_string(), row.clone()));
        Ok(())
    };
    assert_eq!(traverse_mapc(handler, TreeOrNode::Tree(&tree), Some(&props)), Ok(()));
    let rows = rows.into_inner();
    assert_eq!(rows.len(), 16);
    assert_eq!(rows.len(), expected.len());
    for (row, (kind, start, depth)) in rows.iter().zip(expected.iter()) {
        assert_eq!(&row.0, kind);
        assert_eq!(
            row.1,
            vec![
                PropertyValue::Text(kind.clone()),
                PropertyValue::Integer(*start),
                PropertyValue::Integer(*depth),
            ]
        );
    }
}

#[test]
fn bulk_traversal_without_a_selection_hands_out_nodes() {
    let tree = parse("[] 1");
    let seen: RefCell<Vec<(String, usize)>> = RefCell::new(Vec::new());
    let handler = |node: Node, row: &Vec<PropertyValue>| -> Result<(), String> {
        seen.borrow_mut().push((node.kind().to_string(), row.len()));
        Ok(())
    };
    assert_eq!(traverse_mapc(handler, TreeOrNode::Tree(&tree), None), Ok(()));
    let seen = seen.into_inner();
    let kinds: Vec<(&str, usize)> = seen.iter().map(|(k, n)| (k.as_str(), *n)).collect();
    assert_eq!(kinds, vec![("document", 0), ("array", 0), ("[", 0), ("]", 0), ("number", 0)]);
}

#[test]
fn bulk_traversal_stops_at_the_first_failure() {
    let tree = parse(SOURCE);
    let calls: RefCell<Vec<String>> = RefCell::new(Vec::new());
    let handler = |node: Node, _row: &Vec<PropertyValue>| -> Result<(), String> {
        calls.borrow_mut().push(node.kind().to_string());
        if node.kind() == "number" {
            Err(format!("no {}", node.kind()))
        } else {
            Ok(())
        }
    };
    let props = vec![Property::Depth];
    assert_eq!(
        traverse_mapc(handler, TreeOrNode::Tree(&tree), Some(&props)),
        Err("no number".to_string())
    );
    assert_eq!(calls.into_inner(), vec!["document", "array", "[", "number"]);
}

#[test]
fn bulk_traversal_of_a_leaf_calls_once() {
    let tree = parse(SOURCE);
    let leaf = tree.root_node().child(0).unwrap().child(1).unwrap();
    let calls: RefCell<Vec<Vec<PropertyValue>>> = RefCell::new(Vec::new());
    let handler = |_node: Node, row: &Vec<PropertyValue>| -> Result<(), String> {
        calls.borrow_mut().push(row.clone());
        Ok(())
    };
    let props = vec![Property::Depth, Property::ByteRange];
    assert_eq!(traverse_mapc(handler, TreeOrNode::Node(leaf), Some(&props)), Ok(()));
    assert_eq!(
        calls.into_inner(),
        vec![vec![PropertyValue::Integer(0), PropertyValue::ByteRange(1, 2)]]
    );
}

#[test]
fn keywords_name_properties() {
    assert_eq!(Property::from_name(":type"), Property::Type);
    assert_eq!(Property::from_name(":named-p"), Property::NamedP);
    assert_eq!(Property::from_name(":extra-p"), Property::ExtraP);
    assert_eq!(Property::from_name(":error-p"), Property::ErrorP);
    assert_eq!(Property::from_name(":missing-p"), Property::MissingP);
    assert_eq!(Property::from_name(":has-error-p"), Property::HasErrorP);
    assert_eq!(Property::from_name(":start-byte"), Property::StartByte);
    assert_eq!(Property::from_name(":start-point"), Property::StartPoint);
    assert_eq!(Property::from_name(":end-byte"), Property::EndByte);
    assert_eq!(Property::from_name(":end-point"), Property::EndPoint);
    assert_eq!(Property::from_name(":range"), Property::Range);
    assert_eq!(Property::from_name(":byte-range"), Property::ByteRange);
    assert_eq!(Property::from_name(":field"), Property::Field);
    assert_eq!(Property::from_name(":depth"), Property::Depth);
}

#[test]
fn other_names_are_unknown() {
    assert_eq!(Property::from_name(""), Property::Unknown);
    assert_eq!(Property::from_name("type"), Property::Unknown);
    assert_eq!(Property::from_name(":Type"), Property::Unknown);
    assert_eq!(Property::from_name(":type "), Property::Unknown);
    assert_eq!(Property::from_name(":parent"), Property::Unknown);
    let tree = parse(SOURCE);
    let cursor = RCursor::new(&tree);
    let props = vec![Property::from_name(":parent"), Property::from_name(":type")];
    assert_eq!(
        project(&cursor, &props),
        vec![PropertyValue::Nil, PropertyValue::Text("document".to_string())]
    );
}

#[test]
fn borrow_mut_moves_the_cursor() {
    let tree = parse(SOURCE);
    let mut cursor = RCursor::new(&tree);
    assert!(cursor.borrow_mut().goto_first_child());
    assert_eq!(cursor.current_node().kind(), "array");
    assert!(!cursor.borrow_mut().goto_next_sibling());
    assert_eq!(cursor.borrow().node().kind(), "array");
}

#[test]
fn root_with_two_children_and_one_grandchild() {
    let tree = parse("] 1");
    let root = tree.root_node();
    assert_eq!(root.child_count(), 2);
    assert_eq!(root.child(0).unwrap().child_count(), 1);
    assert_eq!(root.child(0).unwrap().child(0).unwrap().child_count(), 0);
    assert_eq!(root.child(1).unwrap().child_count(), 0);
    let mut it = DepthFirstIterator::new(TreeOrNode::Tree(&tree));
    assert_eq!(it.next(), Some((root, 0)));
    assert_eq!(it.next(), Some((root.child(0).unwrap(), 1)));
    assert_eq!(it.next(), Some((root.child(0).unwrap().child(0).unwrap(), 2)));
    assert_eq!(it.next(), Some((root.child(1).unwrap(), 1)));
    assert_eq!(it.next(), None);
    assert_eq!(it.current_state(), TraversalState::Done);
    assert_eq!(it.next(), None);
    assert_eq!(
        kinds(&run(TreeOrNode::Tree(&tree))),
        vec![("document", 0), ("ERROR", 1), ("]", 2), ("number", 1)]
    );
}
