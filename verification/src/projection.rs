//! Projection: reading a chosen list of properties of the current node into a
//! buffer that the caller keeps, slot by slot.

use vstd::prelude::*;
use crate::cursor::RCursor;
use crate::traversal::{upcoming, DepthFirstIterator, TraversalState};
use crate::tree::{
    end_point, kind, node_end_byte, node_end_point, node_error, node_extra, node_has_error,
    node_kind, node_missing, node_named, node_start_byte, node_start_point, start_point,
};

verus! {

/// A property of a node that can be asked for.
#[derive(Clone, Copy, PartialEq, Eq, Structural, Debug)]
pub enum Property {
    /// The node's type.
    Type,
    /// Whether the node is named.
    NamedP,
    /// Whether the node is extra.
    ExtraP,
    /// Whether the node is a syntax error.
    ErrorP,
    /// Whether the node was inserted to recover from an error.
    MissingP,
    /// Whether the node is or contains a syntax error.
    HasErrorP,
    /// The byte offset at which the node starts.
    StartByte,
    /// The row and column at which the node starts.
    StartPoint,
    /// The byte offset at which the node ends.
    EndByte,
    /// The row and column at which the node ends.
    EndPoint,
    /// The rows and columns at which the node starts and ends.
    Range,
    /// The byte offsets at which the node starts and ends.
    ByteRange,
    /// The field of the node within its parent.
    Field,
    /// The depth of the node in a traversal.
    Depth,
    /// A property that is not known: it reads as absent.
    Unknown,
}

/// The property that a keyword names; a keyword that names none stands for
/// `Property::Unknown`.
pub open spec fn named(name: Seq<char>) -> Property {
    if name == ":type"@ {
        Property::Type
    } else if name == ":named-p"@ {
        Property::NamedP
    } else if name == ":extra-p"@ {
        Property::ExtraP
    } else if name == ":error-p"@ {
        Property::ErrorP
    } else if name == ":missing-p"@ {
        Property::MissingP
    } else if name == ":has-error-p"@ {
        Property::HasErrorP
    } else if name == ":start-byte"@ {
        Property::StartByte
    } else if name == ":start-point"@ {
        Property::StartPoint
    } else if name == ":end-byte"@ {
        Property::EndByte
    } else if name == ":end-point"@ {
        Property::EndPoint
    } else if name == ":range"@ {
        Property::Range
    } else if name == ":byte-range"@ {
        Property::ByteRange
    } else if name == ":field"@ {
        Property::Field
    } else if name == ":depth"@ {
        Property::Depth
    } else {
        Property::Unknown
    }
}

/// Whether `name` is the keyword `keyword`.
fn is_keyword(name: &String, keyword: &str) -> (r: bool)
    ensures
        r == (name@ == keyword@),
{
    let keyword = keyword.to_owned();
    *name == keyword
}

impl Property {
    /// The property that `name` names.
    pub fn from_name(name: &str) -> (prop: Property)
        ensures
            prop == named(name@),
    {
        let name = name.to_owned();
        if is_keyword(&name, ":type") {
            Property::Type
        } else if is_keyword(&name, ":named-p") {
            Property::NamedP
        } else if is_keyword(&name, ":extra-p") {
            Property::ExtraP
        } else if is_keyword(&name, ":error-p") {
            Property::ErrorP
        } else if is_keyword(&name, ":missing-p") {
            Property::MissingP
        } else if is_keyword(&name, ":has-error-p") {
            Property::HasErrorP
        } else if is_keyword(&name, ":start-byte") {
            Property::StartByte
        } else if is_keyword(&name, ":start-point") {
            Property::StartPoint
        } else if is_keyword(&name, ":end-byte") {
            Property::EndByte
        } else if is_keyword(&name, ":end-point") {
            Property::EndPoint
        } else if is_keyword(&name, ":range") {
            Property::Range
        } else if is_keyword(&name, ":byte-range") {
            Property::ByteRange
        } else if is_keyword(&name, ":field") {
            Property::Field
        } else if is_keyword(&name, ":depth") {
            Property::Depth
        } else {
            Property::Unknown
        }
    }
}

/// What a property of a node reads as.
#[derive(Clone, PartialEq, Eq, Debug)]
pub enum PropertyValue {
    /// Absent.
    Nil,
    Bool(bool),
    Integer(usize),
    Text(String),
    /// A row and a column.
    Point(usize, usize),
    /// Two byte offsets: start and end.
    ByteRange(usize, usize),
    /// Two points, start and end: a row and a column each.
    PointRange(usize, usize, usize, usize),
}

/// A `PropertyValue` as a mathematical value.
pub enum Reading {
    Nil,
    Bool(bool),
    Integer(int),
    Text(Seq<char>),
    Point(int, int),
    ByteRange(int, int),
    PointRange((int, int), (int, int)),
}

impl View for PropertyValue {
    type V = Reading;

    open spec fn view(&self) -> Reading {
        match *self {
            PropertyValue::Nil => Reading::Nil,
            PropertyValue::Bool(b) => Reading::Bool(b),
            PropertyValue::Integer(n) => Reading::Integer(n as int),
            PropertyValue::Text(s) => Reading::Text(s@),
            PropertyValue::Point(row, column) => Reading::Point(row as int, column as int),
            PropertyValue::ByteRange(start, end) => Reading::ByteRange(start as int, end as int),
            PropertyValue::PointRange(row, column, end_row, end_column) => Reading::PointRange(
                (row as int, column as int),
                (end_row as int, end_column as int),
            ),
        }
    }
}

/// The buffer could not take every property asked for.
#[derive(Clone, Copy, PartialEq, Eq, Structural, Debug)]
pub enum ProjectionError {
    /// The buffer has no slot with this index.
    OutOfRange(usize),
}

/// What `prop` reads as on the node a cursor stands on. The depth is no
/// property of a node: it reads as absent here.
pub open spec fn reading(cursor: RCursor<'_>, prop: Property) -> Reading {
    let node = cursor.node();
    match prop {
        Property::Type => Reading::Text(node_kind(node)),
        Property::NamedP => Reading::Bool(node_named(node)),
        Property::ExtraP => Reading::Bool(node_extra(node)),
        Property::ErrorP => Reading::Bool(node_error(node)),
        Property::MissingP => Reading::Bool(node_missing(node)),
        Property::HasErrorP => Reading::Bool(node_has_error(node)),
        Property::StartByte => Reading::Integer(node_start_byte(node) as int),
        Property::EndByte => Reading::Integer(node_end_byte(node) as int),
        Property::StartPoint => Reading::Point(
            node_start_point(node).0 as int,
            node_start_point(node).1 as int,
        ),
        Property::EndPoint => Reading::Point(
            node_end_point(node).0 as int,
            node_end_point(node).1 as int,
        ),
        Property::Range => Reading::PointRange(
            (node_start_point(node).0 as int, node_start_point(node).1 as int),
            (node_end_point(node).0 as int, node_end_point(node).1 as int),
        ),
        Property::ByteRange => Reading::ByteRange(
            node_start_byte(node) as int,
            node_end_byte(node) as int,
        ),
        Property::Field => match cursor.field() {
            Some(name) => Reading::Text(name),
            None => Reading::Nil,
        },
        Property::Depth => Reading::Nil,
        Property::Unknown => Reading::Nil,
    }
}

/// What `prop` reads as in a traversal that stands at depth `depth`.
pub open spec fn reading_at(cursor: RCursor<'_>, depth: usize, prop: Property) -> Reading {
    if prop == Property::Depth {
        Reading::Integer(depth as int)
    } else {
        reading(cursor, prop)
    }
}

/// The buffer `after` is `before` with the readings of `props` written over
/// its first slots, as far as it has slots for them, and the rest untouched.
pub open spec fn overwritten(
    before: Seq<PropertyValue>,
    after: Seq<PropertyValue>,
    props: Seq<Property>,
    cursor: RCursor<'_>,
    depth: Option<usize>,
) -> bool {
    &&& after.len() == before.len()
    &&& forall|i: int|
        0 <= i < props.len() && i < after.len() ==> (#[trigger] after[i])@ == match depth {
            Some(d) => reading_at(cursor, d, props[i]),
            None => reading(cursor, props[i]),
        }
    &&& forall|i: int| props.len() <= i < after.len() ==> #[trigger] after[i] == before[i]
}

/// Reads one property of the node the cursor stands on.
pub fn read_property(cursor: &RCursor<'_>, prop: Property) -> (value: PropertyValue)
    ensures
        value@ == reading(*cursor, prop),
{
    let node = cursor.current_node();
    match prop {
        Property::Type => PropertyValue::Text(kind(&node)),
        Property::NamedP => PropertyValue::Bool(node.is_named()),
        Property::ExtraP => PropertyValue::Bool(node.is_extra()),
        Property::ErrorP => PropertyValue::Bool(node.is_error()),
        Property::MissingP => PropertyValue::Bool(node.is_missing()),
        Property::HasErrorP => PropertyValue::Bool(node.has_error()),
        Property::StartByte => PropertyValue::Integer(node.start_byte()),
        Property::EndByte => PropertyValue::Integer(node.end_byte()),
        Property::StartPoint => {
            let p = start_point(&node);
            PropertyValue::Point(p.0, p.1)
        },
        Property::EndPoint => {
            let p = end_point(&node);
            PropertyValue::Point(p.0, p.1)
        },
        Property::Range => {
            let p = start_point(&node);
            let q = end_point(&node);
            PropertyValue::PointRange(p.0, p.1, q.0, q.1)
        },
        Property::ByteRange => PropertyValue::ByteRange(node.start_byte(), node.end_byte()),
        Property::Field => match cursor.current_field() {
            Some(name) => PropertyValue::Text(name),
            None => PropertyValue::Nil,
        },
        Property::Depth => PropertyValue::Nil,
        Property::Unknown => PropertyValue::Nil,
    }
}

/// Writes what `props` read as on the current node over the first slots of
/// `output`, slot `i` for `props[i]`. Fails at the first property for which
/// `output` has no slot; the slots before it are written by then.
pub fn project_into(
    cursor: &RCursor<'_>,
    props: &Vec<Property>,
    output: &mut Vec<PropertyValue>,
) -> (r: Result<(), ProjectionError>)
    ensures
        overwritten(old(output)@, final(output)@, props@, *cursor, None),
        r is Ok <==> props.len() <= old(output).len(),
        r is Err ==> r == Err::<(), ProjectionError>(ProjectionError::OutOfRange(old(output).len())),
{
    let mut i: usize = 0;
    while i < props.len()
        invariant
            i <= props.len(),
            i <= output.len(),
            output.len() == old(output).len(),
            forall|j: int| 0 <= j < i ==> (#[trigger] output@[j])@ == reading(*cursor, props@[j]),
            forall|j: int| i <= j < output.len() ==> #[trigger] output@[j] == old(output)@[j],
        decreases props.len() - i,
    {
        if i >= output.len() {
            return Err(ProjectionError::OutOfRange(i));
        }
        let value = read_property(cursor, props[i]);
        output.set(i, value);
        i += 1;
    }
    Ok(())
}

/// A fresh buffer with what `props` read as on the current node, slot `i`
/// for `props[i]`.
pub fn project(cursor: &RCursor<'_>, props: &Vec<Property>) -> (output: Vec<PropertyValue>)
    ensures
        output.len() == props.len(),
        forall|i: int| 0 <= i < props.len() ==> (#[trigger] output@[i])@ == reading(*cursor, props@[i]),
{
    let mut output: Vec<PropertyValue> = Vec::new();
    let mut i: usize = 0;
    while i < props.len()
        invariant
            i <= props.len(),
            output.len() == i,
            forall|j: int| 0 <= j < i ==> (#[trigger] output@[j])@ == reading(*cursor, props@[j]),
        decreases props.len() - i,
    {
        let value = read_property(cursor, props[i]);
        output.push(value);
        i += 1;
    }
    output
}

impl<'a> DepthFirstIterator<'a> {
    /// Writes what `props` read as on the node the traversal stands on over
    /// the first slots of `output`, the depth among them. Where `output` is
    /// too short the slots it has are written, without the depth, and the
    /// call fails.
    pub fn current_node(&self, props: &Vec<Property>, output: &mut Vec<PropertyValue>) -> (r:
        Result<(), ProjectionError>)
        ensures
            r is Ok <==> props.len() <= old(output).len(),
            r is Ok ==> overwritten(
                old(output)@,
                final(output)@,
                props@,
                self.cursor(),
                Some(self.depth()),
            ),
            r is Err ==> r == Err::<(), ProjectionError>(
                ProjectionError::OutOfRange(old(output).len()),
            ) && overwritten(old(output)@, final(output)@, props@, self.cursor(), None),
    {
        match project_into(self.cursor_ref(), props, output) {
            Err(e) => {
                return Err(e);
            },
            Ok(()) => {},
        }
        let depth = self.current_depth();
        let mut i: usize = 0;
        while i < props.len()
            invariant
                i <= props.len(),
                props.len() <= output.len(),
                output.len() == old(output).len(),
                depth == self.depth(),
                forall|j: int|
                    0 <= j < i ==> (#[trigger] output@[j])@ == reading_at(
                        self.cursor(),
                        depth,
                        props@[j],
                    ),
                forall|j: int|
                    i <= j < props.len() ==> (#[trigger] output@[j])@ == reading(
                        self.cursor(),
                        props@[j],
                    ),
                forall|j: int|
                    props.len() <= j < output.len() ==> #[trigger] output@[j] == old(output)@[j],
            decreases props.len() - i,
        {
            if props[i] == Property::Depth {
                output.set(i, PropertyValue::Integer(depth));
            }
            i += 1;
        }
        Ok(())
    }

    /// One step of the traversal and, where it emits a node, the projection
    /// of `props` on that node into `output`. Gives `true` where a node was
    /// emitted; at the end it gives `false` and leaves `output` as it was.
    pub fn next_node(&mut self, props: &Vec<Property>, output: &mut Vec<PropertyValue>) -> (r:
        Result<bool, ProjectionError>)
        requires
            old(self).wf(),
        ensures
            final(self).wf(),
            final(self).nodes() == old(self).nodes(),
            match upcoming(old(self).state(), old(self).nodes().dom(), old(self).path()) {
                Some(q) => {
                    &&& final(self).path() == q
                    &&& final(self).state() == TraversalState::Down
                    &&& final(self).depth() == q.len()
                    &&& r is Ok <==> props.len() <= old(output).len()
                    &&& r is Ok ==> r == Ok::<bool, ProjectionError>(true) && overwritten(
                        old(output)@,
                        final(output)@,
                        props@,
                        final(self).cursor(),
                        Some(final(self).depth()),
                    )
                    &&& r is Err ==> r == Err::<bool, ProjectionError>(
                        ProjectionError::OutOfRange(old(output).len()),
                    ) && overwritten(
                        old(output)@,
                        final(output)@,
                        props@,
                        final(self).cursor(),
                        None,
                    )
                },
                None => {
                    &&& r == Ok::<bool, ProjectionError>(false)
                    &&& final(output)@ == old(output)@
                    &&& final(self).state() == TraversalState::Done
                    &&& final(self).path() == if old(self).state() == TraversalState::Done {
                        old(self).path()
                    } else {
                        Seq::<int>::empty()
                    }
                },
            },
    {
        if self.next().is_some() {
            match self.current_node(props, output) {
                Ok(()) => Ok(true),
                Err(e) => Err(e),
            }
        } else {
            Ok(false)
        }
    }
}

} // verus!
