//! What goes in and out: the requests of the page, the rows of the database, and the answers.

use vstd::prelude::*;

verus! {

/// A request for the graph.
#[derive(Debug, PartialEq, Eq)]
pub struct GraphRequest {
    pub limit: Option<usize>,
    pub query: Option<String>,
    pub languages: Option<Vec<String>>,
    pub kinds: Option<Vec<String>>,
}

/// A request for the source lines of a node.
#[derive(Debug, PartialEq, Eq)]
pub struct SnippetRequest {
    pub file_path: String,
    pub start_line: i64,
    pub end_line: i64,
    pub context: Option<i64>,
}

/// The source lines of a node and of its surroundings.
#[derive(Debug, PartialEq, Eq)]
pub struct SnippetResponse {
    pub path: String,
    pub start_line: i64,
    pub end_line: i64,
    pub lines: Vec<SnippetLine>,
}

/// One source line, with its number in the file; the lines of the node itself are highlighted.
#[derive(Debug, PartialEq, Eq)]
pub struct SnippetLine {
    pub number: i64,
    pub text: String,
    pub highlighted: bool,
}

/// The graph that the page shows.
#[derive(Debug, PartialEq, Eq)]
pub struct GraphResponse {
    pub db_path: String,
    pub summary: Summary,
    pub files: Vec<FileRow>,
    pub nodes: Vec<NodeRow>,
    pub edges: Vec<EdgeRow>,
    pub filters: Filters,
}

/// The size of the whole database, and how it divides.
#[derive(Debug, PartialEq, Eq)]
pub struct Summary {
    pub file_count: i64,
    pub node_count: i64,
    pub edge_count: i64,
    pub unresolved_count: i64,
    pub languages: Vec<Bucket>,
    pub node_kinds: Vec<Bucket>,
    pub edge_kinds: Vec<Bucket>,
}

/// How many rows share a name.
#[derive(Debug, PartialEq, Eq)]
pub struct Bucket {
    pub name: String,
    pub count: i64,
}

impl Clone for Bucket {
    fn clone(&self) -> (copy: Bucket)
        ensures
            copy == *self,
    {
        Bucket { name: self.name.clone(), count: self.count }
    }
}

/// A row of the table of files.
#[derive(Debug, PartialEq, Eq)]
pub struct FileRow {
    pub path: String,
    pub language: String,
    pub size: i64,
    pub node_count: i64,
    pub errors: Option<String>,
}

/// A row of the table of nodes, as the database holds it: a flag is a number.
#[derive(Debug, PartialEq, Eq)]
pub struct NodeRecord {
    pub id: String,
    pub kind: String,
    pub name: String,
    pub qualified_name: String,
    pub file_path: String,
    pub language: String,
    pub start_line: i64,
    pub end_line: i64,
    pub signature: Option<String>,
    pub docstring: Option<String>,
    pub visibility: Option<String>,
    pub is_exported: i64,
    pub is_async: i64,
    pub is_static: i64,
    pub is_abstract: i64,
}

/// A node of the graph.
#[derive(Debug, PartialEq, Eq)]
pub struct NodeRow {
    pub id: String,
    pub kind: String,
    pub name: String,
    pub qualified_name: String,
    pub file_path: String,
    pub language: String,
    pub start_line: i64,
    pub end_line: i64,
    pub signature: Option<String>,
    pub docstring: Option<String>,
    pub visibility: Option<String>,
    pub is_exported: bool,
    pub is_async: bool,
    pub is_static: bool,
    pub is_abstract: bool,
}

/// An edge of the graph, between the nodes with the ids `source` and `target`.
#[derive(Debug, PartialEq, Eq)]
pub struct EdgeRow {
    pub id: i64,
    pub source: String,
    pub target: String,
    pub kind: String,
    pub metadata: Option<String>,
    pub line: Option<i64>,
    pub col: Option<i64>,
    pub provenance: Option<String>,
}

/// The names that the page offers to filter by.
#[derive(Debug, PartialEq, Eq)]
pub struct Filters {
    pub languages: Vec<Bucket>,
    pub node_kinds: Vec<Bucket>,
    pub edge_kinds: Vec<Bucket>,
}

/// The node that a row of the table stands for: a flag is set if its number is not zero.
pub open spec fn node_of(record: NodeRecord) -> NodeRow {
    NodeRow {
        id: record.id,
        kind: record.kind,
        name: record.name,
        qualified_name: record.qualified_name,
        file_path: record.file_path,
        language: record.language,
        start_line: record.start_line,
        end_line: record.end_line,
        signature: record.signature,
        docstring: record.docstring,
        visibility: record.visibility,
        is_exported: record.is_exported != 0,
        is_async: record.is_async != 0,
        is_static: record.is_static != 0,
        is_abstract: record.is_abstract != 0,
    }
}

/// Makes a node of a row of the table.
pub fn map_node(record: NodeRecord) -> (node: NodeRow)
    ensures
        node == node_of(record),
        node.id == record.id,
        node.kind == record.kind,
        node.name == record.name,
        node.qualified_name == record.qualified_name,
        node.file_path == record.file_path,
        node.language == record.language,
        node.start_line == record.start_line,
        node.end_line == record.end_line,
        node.signature == record.signature,
        node.docstring == record.docstring,
        node.visibility == record.visibility,
        node.is_exported <==> record.is_exported != 0,
        node.is_async <==> record.is_async != 0,
        node.is_static <==> record.is_static != 0,
        node.is_abstract <==> record.is_abstract != 0,
{
    NodeRow {
        id: record.id,
        kind: record.kind,
        name: record.name,
        qualified_name: record.qualified_name,
        file_path: record.file_path,
        language: record.language,
        start_line: record.start_line,
        end_line: record.end_line,
        signature: record.signature,
        docstring: record.docstring,
        visibility: record.visibility,
        is_exported: record.is_exported != 0,
        is_async: record.is_async != 0,
        is_static: record.is_static != 0,
        is_abstract: record.is_abstract != 0,
    }
}

/// The nodes that rows of the table stand for.
pub open spec fn nodes_of(records: Seq<NodeRecord>) -> Seq<NodeRow> {
    records.map_values(|record: NodeRecord| node_of(record))
}

/// Makes nodes of rows of the table.
pub fn map_nodes(records: Vec<NodeRecord>) -> (nodes: Vec<NodeRow>)
    ensures
        nodes@ == nodes_of(records@),
        nodes@.len() == records@.len(),
        forall|i: int|
            #![trigger nodes@[i]]
            0 <= i < nodes@.len() ==> shows_row(nodes@[i], records@[i]),
{
    let ghost rows = records@;
    let mut nodes: Vec<NodeRow> = Vec::new();
    for record in it: records.into_iter()
        invariant
            it.seq() == rows,
            nodes@ =~= nodes_of(rows.take(it.index() as int)),
    {
        assert(rows.take(it.index() + 1) =~= rows.take(it.index() as int).push(record));
        nodes.push(map_node(record));
    }
    assert(rows.take(rows.len() as int) =~= rows);
    proof {
        law_nodes_show_their_rows(rows);
    }
    nodes
}

/// The ids of nodes, in their order.
pub open spec fn ids_of(nodes: Seq<NodeRow>) -> Seq<Seq<char>> {
    nodes.map_values(|node: NodeRow| node.id@)
}

/// Lists the ids of nodes.
pub fn node_ids(nodes: &Vec<NodeRow>) -> (ids: Vec<String>)
    ensures
        crate::text::texts(ids@) == ids_of(nodes@),
        ids@.len() == nodes@.len(),
        forall|i: int|
            #![trigger ids@[i]]
            0 <= i < ids@.len() ==> ids@[i]@ == nodes@[i].id@,
{
    let mut ids: Vec<String> = Vec::new();
    for i in 0..nodes.len()
        invariant
            crate::text::texts(ids@) =~= ids_of(nodes@.take(i as int)),
    {
        let id = nodes[i].id.clone();
        assert(nodes@.take(i + 1) =~= nodes@.take(i as int).push(nodes@[i as int]));
        assert(crate::text::texts(ids@.push(id)) =~= crate::text::texts(ids@).push(id@));
        ids.push(id);
    }
    assert(nodes@.take(nodes@.len() as int) =~= nodes@);
    assert forall|i: int| #![trigger ids@[i]] 0 <= i < ids@.len() implies ids@[i]@
        == nodes@[i].id@ by {
        assert(crate::text::texts(ids@)[i] == ids_of(nodes@)[i]);
    }
    assert(crate::text::texts(ids@).len() == ids_of(nodes@).len());
    ids
}

/// Whether a node has all that a row of the table of nodes says, each under its own name: texts and
/// lines as they are, and a flag set if and only if its number is not zero.
pub open spec fn shows_row(node: NodeRow, record: NodeRecord) -> bool {
    &&& node.id == record.id
    &&& node.kind == record.kind
    &&& node.name == record.name
    &&& node.qualified_name == record.qualified_name
    &&& node.file_path == record.file_path
    &&& node.language == record.language
    &&& node.start_line == record.start_line
    &&& node.end_line == record.end_line
    &&& node.signature == record.signature
    &&& node.docstring == record.docstring
    &&& node.visibility == record.visibility
    &&& node.is_exported <==> record.is_exported != 0
    &&& node.is_async <==> record.is_async != 0
    &&& node.is_static <==> record.is_static != 0
    &&& node.is_abstract <==> record.is_abstract != 0
}

/// Each node has what its row says, and the nodes stand in the order of the rows. So a node starts no
/// later than it ends if its row does.
pub proof fn law_nodes_show_their_rows(records: Seq<NodeRecord>)
    ensures
        nodes_of(records).len() == records.len(),
        forall|i: int|
            0 <= i < records.len() ==> shows_row(#[trigger] nodes_of(records)[i], records[i]),
        forall|i: int|
            0 <= i < records.len() && records[i].start_line <= records[i].end_line ==> (
            #[trigger] nodes_of(records)[i]).start_line <= nodes_of(records)[i].end_line,
{
}

/// A node has what its row says; two rows that give one node differ in no more than the numbers of
/// flags that are set.
pub proof fn law_node_shows_its_row(record: NodeRecord, other: NodeRecord)
    ensures
        node_of(record).id == record.id,
        node_of(record).kind == record.kind,
        node_of(record).name == record.name,
        node_of(record).qualified_name == record.qualified_name,
        node_of(record).file_path == record.file_path,
        node_of(record).language == record.language,
        node_of(record).start_line == record.start_line,
        node_of(record).end_line == record.end_line,
        node_of(record).signature == record.signature,
        node_of(record).docstring == record.docstring,
        node_of(record).visibility == record.visibility,
        node_of(record).is_exported <==> record.is_exported != 0,
        node_of(record).is_async <==> record.is_async != 0,
        node_of(record).is_static <==> record.is_static != 0,
        node_of(record).is_abstract <==> record.is_abstract != 0,
        node_of(record) == node_of(other) ==> record.start_line == other.start_line
            && record.end_line == other.end_line && record.id == other.id,
{
}

/// The ids of nodes are theirs, in the order of the nodes.
pub proof fn law_ids_are_those_of_the_nodes(nodes: Seq<NodeRow>)
    ensures
        ids_of(nodes).len() == nodes.len(),
        forall|i: int| 0 <= i < nodes.len() ==> #[trigger] ids_of(nodes)[i] == nodes[i].id@,
{
}

} // verus!
