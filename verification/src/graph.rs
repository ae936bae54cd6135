//! How the graph is put together: what is asked of the database, in which order, and what becomes
//! of the answers.

use vstd::prelude::*;
use vstd::string::*;

use crate::endpoints;
use crate::error::AppError;
use crate::rows;
use crate::rows::{
    Bucket, EdgeRow, FileRow, Filters, GraphRequest, GraphResponse, NodeRecord, NodeRow, Summary,
};
use crate::sql;
use crate::sql::{Bound, Statement};
use crate::text;

verus! {

/// How many nodes are asked for if the request does not say.
pub const DEFAULT_LIMIT: usize = 500;

/// How many nodes are asked for at least.
pub const MIN_LIMIT: usize = 50;

/// How many nodes are asked for at most.
pub const MAX_LIMIT: usize = 3000;

/// What is asked next.
#[derive(Clone, Copy, Debug, PartialEq, Eq, Structural)]
pub enum GraphStep {
    /// Whether there is a table of files.
    FindFiles,
    /// Whether there is a table of nodes.
    FindNodes,
    /// Whether there is a table of edges.
    FindEdges,
    /// How many files there are.
    CountFiles,
    /// How many nodes there are.
    CountNodes,
    /// How many edges there are.
    CountEdges,
    /// Whether there is a table of unresolved references.
    FindUnresolved,
    /// How many unresolved references there are.
    CountUnresolved,
    /// How the nodes divide by language.
    Languages,
    /// How the nodes divide by kind.
    NodeKinds,
    /// How the edges divide by kind.
    EdgeKinds,
    /// The nodes that the request is about.
    Nodes,
    /// The edges of these nodes.
    Edges,
    /// The nodes at the other ends of the edges.
    Endpoints,
    /// The files of all the nodes.
    Files,
    /// Nothing: the graph is complete.
    Done,
}

/// What is to be done next, by someone who has the database.
pub enum GraphAction {
    /// To ask for one number.
    Count(Statement),
    /// To ask for names, each with a number.
    Buckets(Statement),
    /// To ask for nodes.
    Nodes(Statement),
    /// To ask for edges.
    Edges(Statement),
    /// To ask for files.
    Files(Statement),
    /// To send the response.
    Respond,
}

/// What the database answers.
pub enum GraphReply {
    Count(i64),
    Buckets(Vec<Bucket>),
    Nodes(Vec<NodeRecord>),
    Edges(Vec<EdgeRow>),
    Files(Vec<FileRow>),
}

/// A graph that is being put together.
pub struct GraphJob {
    step: GraphStep,
    db_path: String,
    limit: usize,
    query: String,
    languages: Vec<String>,
    kinds: Vec<String>,
    summary: Summary,
    nodes: Vec<NodeRow>,
    edges: Vec<EdgeRow>,
    missing: Vec<String>,
    files: Vec<FileRow>,
}

/// What [`GraphAction`] says.
pub enum Ask {
    Count(sql::Question),
    Buckets(sql::Question),
    Nodes(sql::Question),
    Edges(sql::Question),
    Files(sql::Question),
    Nothing,
}

/// What [`GraphReply`] says.
pub enum Answer {
    Count(i64),
    Buckets(Seq<Bucket>),
    Nodes(Seq<NodeRecord>),
    Edges(Seq<EdgeRow>),
    Files(Seq<FileRow>),
}

/// What [`Summary`] says.
#[verifier::ext_equal]
pub struct Totals {
    pub file_count: i64,
    pub node_count: i64,
    pub edge_count: i64,
    pub unresolved_count: i64,
    pub languages: Seq<Bucket>,
    pub node_kinds: Seq<Bucket>,
    pub edge_kinds: Seq<Bucket>,
}

/// What [`GraphJob`] holds.
#[verifier::ext_equal]
pub struct GraphState {
    pub step: GraphStep,
    pub db_path: Seq<char>,
    pub limit: nat,
    pub query: Seq<char>,
    pub languages: Seq<Seq<char>>,
    pub kinds: Seq<Seq<char>>,
    pub totals: Totals,
    pub nodes: Seq<NodeRow>,
    pub edges: Seq<EdgeRow>,
    pub missing: Seq<Seq<char>>,
    pub files: Seq<FileRow>,
}

impl View for GraphAction {
    type V = Ask;

    open spec fn view(&self) -> Ask {
        match self {
            GraphAction::Count(statement) => Ask::Count(statement@),
            GraphAction::Buckets(statement) => Ask::Buckets(statement@),
            GraphAction::Nodes(statement) => Ask::Nodes(statement@),
            GraphAction::Edges(statement) => Ask::Edges(statement@),
            GraphAction::Files(statement) => Ask::Files(statement@),
            GraphAction::Respond => Ask::Nothing,
        }
    }
}

impl View for GraphReply {
    type V = Answer;

    open spec fn view(&self) -> Answer {
        match self {
            GraphReply::Count(number) => Answer::Count(*number),
            GraphReply::Buckets(buckets) => Answer::Buckets(buckets@),
            GraphReply::Nodes(records) => Answer::Nodes(records@),
            GraphReply::Edges(edges) => Answer::Edges(edges@),
            GraphReply::Files(files) => Answer::Files(files@),
        }
    }
}

impl View for Summary {
    type V = Totals;

    open spec fn view(&self) -> Totals {
        Totals {
            file_count: self.file_count,
            node_count: self.node_count,
            edge_count: self.edge_count,
            unresolved_count: self.unresolved_count,
            languages: self.languages@,
            node_kinds: self.node_kinds@,
            edge_kinds: self.edge_kinds@,
        }
    }
}

impl View for GraphJob {
    type V = GraphState;

    closed spec fn view(&self) -> GraphState {
        GraphState {
            step: self.step,
            db_path: self.db_path@,
            limit: self.limit as nat,
            query: self.query@,
            languages: text::texts(self.languages@),
            kinds: text::texts(self.kinds@),
            totals: self.summary@,
            nodes: self.nodes@,
            edges: self.edges@,
            missing: text::texts(self.missing@),
            files: self.files@,
        }
    }
}

/// How many nodes are asked for: what the request says, within bounds.
pub open spec fn limit_of(request: GraphRequest) -> nat {
    let wanted = match request.limit {
        Some(limit) => limit,
        None => DEFAULT_LIMIT,
    };
    if wanted < MIN_LIMIT {
        MIN_LIMIT as nat
    } else if wanted > MAX_LIMIT {
        MAX_LIMIT as nat
    } else {
        wanted as nat
    }
}

/// The strings of a list that may be missing.
pub open spec fn option_texts(values: Option<Vec<String>>) -> Seq<Seq<char>> {
    match values {
        Some(values) => text::texts(values@),
        None => Seq::empty(),
    }
}

/// The characters of a string that may be missing.
pub open spec fn text_or_empty(value: Option<String>) -> Seq<char> {
    match value {
        Some(value) => value@,
        None => Seq::empty(),
    }
}

/// Nothing has been counted.
pub open spec fn no_totals() -> Totals {
    Totals {
        file_count: 0,
        node_count: 0,
        edge_count: 0,
        unresolved_count: 0,
        languages: Seq::empty(),
        node_kinds: Seq::empty(),
        edge_kinds: Seq::empty(),
    }
}

/// Where every graph starts.
pub open spec fn start_of(db_path: Seq<char>, request: GraphRequest) -> GraphState {
    GraphState {
        step: GraphStep::FindFiles,
        db_path,
        limit: limit_of(request),
        query: text_or_empty(request.query),
        languages: option_texts(request.languages),
        kinds: option_texts(request.kinds),
        totals: no_totals(),
        nodes: Seq::empty(),
        edges: Seq::empty(),
        missing: Seq::empty(),
        files: Seq::empty(),
    }
}

/// What is asked of the database.
pub open spec fn asked(state: GraphState) -> Ask {
    match state.step {
        GraphStep::FindFiles => Ask::Count(sql::table_question("files"@)),
        GraphStep::FindNodes => Ask::Count(sql::table_question("nodes"@)),
        GraphStep::FindEdges => Ask::Count(sql::table_question("edges"@)),
        GraphStep::CountFiles => Ask::Count(sql::plain(sql::COUNT_ROWS@ + "files"@)),
        GraphStep::CountNodes => Ask::Count(sql::plain(sql::COUNT_ROWS@ + "nodes"@)),
        GraphStep::CountEdges => Ask::Count(sql::plain(sql::COUNT_ROWS@ + "edges"@)),
        GraphStep::FindUnresolved => Ask::Count(sql::table_question("unresolved_refs"@)),
        GraphStep::CountUnresolved => Ask::Count(
            sql::plain(sql::COUNT_ROWS@ + "unresolved_refs"@),
        ),
        GraphStep::Languages => Ask::Buckets(sql::plain(sql::LANGUAGES@)),
        GraphStep::NodeKinds => Ask::Buckets(sql::plain(sql::NODE_KINDS@)),
        GraphStep::EdgeKinds => Ask::Buckets(sql::plain(sql::EDGE_KINDS@)),
        GraphStep::Nodes => Ask::Nodes(
            sql::nodes_question(
                state.limit,
                state.query,
                sql::json_filter(state.languages),
                sql::json_filter(state.kinds),
            ),
        ),
        GraphStep::Edges => Ask::Edges(
            sql::edges_question(
                sql::json_strings(rows::ids_of(state.nodes)),
                (3 * state.limit) as i64,
            ),
        ),
        GraphStep::Endpoints => Ask::Nodes(
            sql::nodes_by_ids_question(sql::json_strings(state.missing)),
        ),
        GraphStep::Files => Ask::Files(
            sql::files_question(sql::json_strings(rows::ids_of(state.nodes))),
        ),
        GraphStep::Done => Ask::Nothing,
    }
}

/// Whether an answer is of the kind that was asked for.
pub open spec fn fits(state: GraphState, answer: Answer) -> bool {
    match asked(state) {
        Ask::Count(_) => answer is Count,
        Ask::Buckets(_) => answer is Buckets,
        Ask::Nodes(_) => answer is Nodes,
        Ask::Edges(_) => answer is Edges,
        Ask::Files(_) => answer is Files,
        Ask::Nothing => false,
    }
}

/// The message about a database without a table.
pub open spec fn no_table(table: Seq<char>) -> Seq<char> {
    "db 缺少必要表: "@ + table
}

/// What follows on a search for a table that has to be there.
pub open spec fn table_found(
    state: GraphState,
    table: Seq<char>,
    count: i64,
    step: GraphStep,
) -> Result<GraphState, Seq<char>> {
    if count == 0 {
        Err(no_table(table))
    } else {
        Ok(GraphState { step, ..state })
    }
}

/// The graph with all its nodes, in which only the edges between them are left.
pub open spec fn connected(state: GraphState) -> GraphState {
    GraphState {
        step: GraphStep::Files,
        edges: state.edges.filter(endpoints::connects(rows::ids_of(state.nodes))),
        ..state
    }
}

/// What follows on the edges of the nodes.
pub open spec fn with_edges(state: GraphState, edges: Seq<EdgeRow>) -> GraphState {
    let missing = endpoints::missing_ids(edges, rows::ids_of(state.nodes), state.limit / 2);
    let found = GraphState { edges, missing, ..state };
    if missing.len() == 0 {
        connected(found)
    } else {
        GraphState { step: GraphStep::Endpoints, ..found }
    }
}

/// What follows on an answer; or the message that refuses the request.
pub open spec fn next(state: GraphState, answer: Answer) -> Result<GraphState, Seq<char>> {
    let totals = state.totals;
    match (state.step, answer) {
        (GraphStep::FindFiles, Answer::Count(count)) => table_found(
            state,
            "files"@,
            count,
            GraphStep::FindNodes,
        ),
        (GraphStep::FindNodes, Answer::Count(count)) => table_found(
            state,
            "nodes"@,
            count,
            GraphStep::FindEdges,
        ),
        (GraphStep::FindEdges, Answer::Count(count)) => table_found(
            state,
            "edges"@,
            count,
            GraphStep::CountFiles,
        ),
        (GraphStep::CountFiles, Answer::Count(count)) => Ok(
            GraphState {
                step: GraphStep::CountNodes,
                totals: Totals { file_count: count, ..totals },
                ..state
            },
        ),
        (GraphStep::CountNodes, Answer::Count(count)) => Ok(
            GraphState {
                step: GraphStep::CountEdges,
                totals: Totals { node_count: count, ..totals },
                ..state
            },
        ),
        (GraphStep::CountEdges, Answer::Count(count)) => Ok(
            GraphState {
                step: GraphStep::FindUnresolved,
                totals: Totals { edge_count: count, ..totals },
                ..state
            },
        ),
        (GraphStep::FindUnresolved, Answer::Count(count)) => Ok(
            if count == 0 {
                GraphState {
                    step: GraphStep::Languages,
                    totals: Totals { unresolved_count: 0, ..totals },
                    ..state
                }
            } else {
                GraphState { step: GraphStep::CountUnresolved, ..state }
            },
        ),
        (GraphStep::CountUnresolved, Answer::Count(count)) => Ok(
            GraphState {
                step: GraphStep::Languages,
                totals: Totals { unresolved_count: count, ..totals },
                ..state
            },
        ),
        (GraphStep::Languages, Answer::Buckets(buckets)) => Ok(
            GraphState {
                step: GraphStep::NodeKinds,
                totals: Totals { languages: buckets, ..totals },
                ..state
            },
        ),
        (GraphStep::NodeKinds, Answer::Buckets(buckets)) => Ok(
            GraphState {
                step: GraphStep::EdgeKinds,
                totals: Totals { node_kinds: buckets, ..totals },
                ..state
            },
        ),
        (GraphStep::EdgeKinds, Answer::Buckets(buckets)) => Ok(
            GraphState {
                step: GraphStep::Nodes,
                totals: Totals { edge_kinds: buckets, ..totals },
                ..state
            },
        ),
        (GraphStep::Nodes, Answer::Nodes(records)) => Ok(
            GraphState {
                step: if records.len() == 0 {
                    GraphStep::Done
                } else {
                    GraphStep::Edges
                },
                nodes: rows::nodes_of(records),
                ..state
            },
        ),
        (GraphStep::Edges, Answer::Edges(edges)) => Ok(with_edges(state, edges)),
        (GraphStep::Endpoints, Answer::Nodes(records)) => Ok(
            connected(GraphState { nodes: state.nodes + rows::nodes_of(records), ..state }),
        ),
        (GraphStep::Files, Answer::Files(files)) => Ok(
            GraphState { step: GraphStep::Done, files, ..state },
        ),
        _ => Ok(state),
    }
}

/// Whether every edge runs between two of the nodes.
pub open spec fn closed_graph(nodes: Seq<NodeRow>, edges: Seq<EdgeRow>) -> bool {
    forall|i: int|
        #![trigger edges[i]]
        0 <= i < edges.len() ==> rows::ids_of(nodes).contains(edges[i].source@) && rows::ids_of(
            nodes,
        ).contains(edges[i].target@)
}

/// What holds of a graph at every step.
pub open spec fn valid(state: GraphState) -> bool {
    &&& MIN_LIMIT <= state.limit <= MAX_LIMIT
    &&& match state.step {
        GraphStep::Edges => {
            &&& state.nodes.len() > 0
            &&& state.edges.len() == 0
            &&& state.files.len() == 0
        },
        GraphStep::Endpoints => {
            &&& state.nodes.len() > 0
            &&& state.missing == endpoints::missing_ids(
                state.edges,
                rows::ids_of(state.nodes),
                state.limit / 2,
            )
            &&& state.missing.len() > 0
            &&& state.files.len() == 0
        },
        GraphStep::Files => {
            &&& state.nodes.len() > 0
            &&& closed_graph(state.nodes, state.edges)
            &&& state.files.len() == 0
        },
        GraphStep::Done => {
            &&& closed_graph(state.nodes, state.edges)
            &&& state.nodes.len() == 0 ==> state.edges.len() == 0 && state.files.len() == 0
        },
        _ => {
            &&& state.nodes.len() == 0
            &&& state.edges.len() == 0
            &&& state.files.len() == 0
        },
    }
}

/// The graph in which only the edges between its nodes are left is closed.
proof fn lemma_connected(state: GraphState)
    ensures
        closed_graph(state.nodes, connected(state).edges),
{
    let keep = endpoints::connects(rows::ids_of(state.nodes));
    assert forall|i: int| 0 <= i < state.edges.filter(keep).len() implies keep(
        #[trigger] state.edges.filter(keep)[i],
    ) by {
        state.edges.lemma_filter_pred(keep, i);
    }
}

/// A graph is valid when it is started.
pub proof fn law_start_is_valid(db_path: Seq<char>, request: GraphRequest)
    ensures
        valid(start_of(db_path, request)),
{
}

/// A graph stays valid, whatever the database answers.
pub proof fn law_answers_keep_graph_valid(state: GraphState, answer: Answer)
    requires
        valid(state),
        fits(state, answer),
    ensures
        next(state, answer) matches Ok(after) ==> valid(after),
{
    match (state.step, answer) {
        (GraphStep::Edges, Answer::Edges(edges)) => {
            let missing = endpoints::missing_ids(edges, rows::ids_of(state.nodes), state.limit / 2);
            lemma_connected(GraphState { edges, missing, ..state });
        },
        (GraphStep::Endpoints, Answer::Nodes(records)) => {
            lemma_connected(
                GraphState { nodes: state.nodes + rows::nodes_of(records), ..state },
            );
        },
        _ => {},
    }
}

/// Checks the result of a search for a table that has to be there.
pub fn ensure_table(table: &str, count: i64) -> (result: Result<(), AppError>)
    ensures
        result is Err <==> count == 0,
        result matches Err(error) ==> error.refuses(no_table(table@)),
        result matches Err(error) ==> error.status is BadRequest && error.message@
            == "db 缺少必要表: "@ + table@,
{
    if count == 0 {
        Err(AppError::bad_request("db 缺少必要表: ".to_owned().concat(table)))
    } else {
        Ok(())
    }
}

impl GraphJob {
    /// Whether an answer to the last action has led to the right result.
    pub open spec fn follows(
        result: Result<GraphJob, AppError>,
        state: GraphState,
        answer: Answer,
    ) -> bool {
        match next(state, answer) {
            Ok(after) => result matches Ok(job) && job@ == after,
            Err(message) => result matches Err(error) && error.refuses(message),
        }
    }

    /// Starts on the graph that a request asks for, from the database at `db_path`.
    pub fn new(db_path: String, request: GraphRequest) -> (job: GraphJob)
        ensures
            job@ == start_of(db_path@, request),
            valid(job@),
    {
        let wanted = match request.limit {
            Some(limit) => limit,
            None => DEFAULT_LIMIT,
        };
        let limit = if wanted < MIN_LIMIT {
            MIN_LIMIT
        } else if wanted > MAX_LIMIT {
            MAX_LIMIT
        } else {
            wanted
        };
        let query = match request.query {
            Some(query) => query,
            None => String::new(),
        };
        let languages = match request.languages {
            Some(languages) => languages,
            None => Vec::new(),
        };
        let kinds = match request.kinds {
            Some(kinds) => kinds,
            None => Vec::new(),
        };
        let job = GraphJob {
            step: GraphStep::FindFiles,
            db_path,
            limit,
            query,
            languages,
            kinds,
            summary: Summary {
                file_count: 0,
                node_count: 0,
                edge_count: 0,
                unresolved_count: 0,
                languages: Vec::new(),
                node_kinds: Vec::new(),
                edge_kinds: Vec::new(),
            },
            nodes: Vec::new(),
            edges: Vec::new(),
            missing: Vec::new(),
            files: Vec::new(),
        };
        assert(job@ =~~= start_of(db_path@, request));
        job
    }

    /// Says what is to be done next.
    pub fn action(&self) -> (result: Result<GraphAction, AppError>)
        requires
            valid(self@),
        ensures
            result is Ok,
            result->Ok_0@ == asked(self@),
    {
        match self.step {
            GraphStep::FindFiles => Ok(GraphAction::Count(sql::table_exists("files"))),
            GraphStep::FindNodes => Ok(GraphAction::Count(sql::table_exists("nodes"))),
            GraphStep::FindEdges => Ok(GraphAction::Count(sql::table_exists("edges"))),
            GraphStep::CountFiles => Ok(GraphAction::Count(sql::count("files"))),
            GraphStep::CountNodes => Ok(GraphAction::Count(sql::count("nodes"))),
            GraphStep::CountEdges => Ok(GraphAction::Count(sql::count("edges"))),
            GraphStep::FindUnresolved => Ok(
                GraphAction::Count(sql::table_exists("unresolved_refs")),
            ),
            GraphStep::CountUnresolved => Ok(GraphAction::Count(sql::count("unresolved_refs"))),
            GraphStep::Languages => Ok(GraphAction::Buckets(sql::buckets(sql::LANGUAGES))),
            GraphStep::NodeKinds => Ok(GraphAction::Buckets(sql::buckets(sql::NODE_KINDS))),
            GraphStep::EdgeKinds => Ok(GraphAction::Buckets(sql::buckets(sql::EDGE_KINDS))),
            GraphStep::Nodes => match sql::load_nodes(
                self.limit,
                self.query.as_str(),
                &self.languages,
                &self.kinds,
            ) {
                Ok(statement) => Ok(GraphAction::Nodes(statement)),
                Err(error) => Err(error),
            },
            GraphStep::Edges => {
                let ids = rows::node_ids(&self.nodes);
                assert(ids@.len() == rows::ids_of(self.nodes@).len());
                match sql::load_edges(&ids, self.limit * 3) {
                    Ok(Some(statement)) => Ok(GraphAction::Edges(statement)),
                    Ok(None) => Ok(GraphAction::Respond),
                    Err(error) => Err(error),
                }
            },
            GraphStep::Endpoints => match sql::load_nodes_by_ids(&self.missing) {
                Ok(Some(statement)) => Ok(GraphAction::Nodes(statement)),
                Ok(None) => Ok(GraphAction::Respond),
                Err(error) => Err(error),
            },
            GraphStep::Files => {
                let ids = rows::node_ids(&self.nodes);
                assert(ids@.len() == rows::ids_of(self.nodes@).len());
                match sql::load_files(&ids) {
                    Ok(Some(statement)) => Ok(GraphAction::Files(statement)),
                    Ok(None) => Ok(GraphAction::Respond),
                    Err(error) => Err(error),
                }
            },
            GraphStep::Done => Ok(GraphAction::Respond),
        }
    }

    /// Leaves only the edges between the nodes.
    fn connect(self) -> (job: GraphJob)
        ensures
            job@ == connected(self@),
    {
        let mut job = self;
        let ids = rows::node_ids(&job.nodes);
        job.edges = endpoints::retain_connected(job.edges, ids.as_slice());
        job.step = GraphStep::Files;
        job
    }

    /// Goes on with what the database answered to the last action.
    pub fn advance(self, reply: GraphReply) -> (result: Result<GraphJob, AppError>)
        requires
            valid(self@),
            fits(self@, reply@),
        ensures
            GraphJob::follows(result, self@, reply@),
            match next(self@, reply@) {
                Ok(after) => result is Ok && result->Ok_0@ == after,
                Err(message) => result is Err && result->Err_0.status is BadRequest
                    && result->Err_0.message@ == message,
            },
            result matches Ok(job) ==> valid(job@),
    {
        proof {
            law_answers_keep_graph_valid(self@, reply@);
        }
        let mut job = self;
        match (job.step, reply) {
            (GraphStep::FindFiles, GraphReply::Count(count)) => match ensure_table("files", count) {
                Ok(_) => {
                    job.step = GraphStep::FindNodes;
                    Ok(job)
                },
                Err(error) => Err(error),
            },
            (GraphStep::FindNodes, GraphReply::Count(count)) => match ensure_table("nodes", count) {
                Ok(_) => {
                    job.step = GraphStep::FindEdges;
                    Ok(job)
                },
                Err(error) => Err(error),
            },
            (GraphStep::FindEdges, GraphReply::Count(count)) => match ensure_table("edges", count) {
                Ok(_) => {
                    job.step = GraphStep::CountFiles;
                    Ok(job)
                },
                Err(error) => Err(error),
            },
            (GraphStep::CountFiles, GraphReply::Count(count)) => {
                job.summary.file_count = count;
                job.step = GraphStep::CountNodes;
                Ok(job)
            },
            (GraphStep::CountNodes, GraphReply::Count(count)) => {
                job.summary.node_count = count;
                job.step = GraphStep::CountEdges;
                Ok(job)
            },
            (GraphStep::CountEdges, GraphReply::Count(count)) => {
                job.summary.edge_count = count;
                job.step = GraphStep::FindUnresolved;
                Ok(job)
            },
            (GraphStep::FindUnresolved, GraphReply::Count(count)) => {
                match sql::optional_count("unresolved_refs", count) {
                    None => {
                        job.summary.unresolved_count = 0;
                        job.step = GraphStep::Languages;
                    },
                    Some(_) => {
                        job.step = GraphStep::CountUnresolved;
                    },
                }
                Ok(job)
            },
            (GraphStep::CountUnresolved, GraphReply::Count(count)) => {
                job.summary.unresolved_count = count;
                job.step = GraphStep::Languages;
                Ok(job)
            },
            (GraphStep::Languages, GraphReply::Buckets(buckets)) => {
                job.summary.languages = buckets;
                job.step = GraphStep::NodeKinds;
                Ok(job)
            },
            (GraphStep::NodeKinds, GraphReply::Buckets(buckets)) => {
                job.summary.node_kinds = buckets;
                job.step = GraphStep::EdgeKinds;
                Ok(job)
            },
            (GraphStep::EdgeKinds, GraphReply::Buckets(buckets)) => {
                job.summary.edge_kinds = buckets;
                job.step = GraphStep::Nodes;
                Ok(job)
            },
            (GraphStep::Nodes, GraphReply::Nodes(records)) => {
                job.nodes = rows::map_nodes(records);
                job.step = if job.nodes.len() == 0 {
                    GraphStep::Done
                } else {
                    GraphStep::Edges
                };
                Ok(job)
            },
            (GraphStep::Edges, GraphReply::Edges(edges)) => {
                let ids = rows::node_ids(&job.nodes);
                job.missing = endpoints::edge_endpoint_ids(
                    edges.as_slice(),
                    ids.as_slice(),
                    job.limit / 2,
                );
                job.edges = edges;
                if job.missing.len() == 0 {
                    Ok(job.connect())
                } else {
                    job.step = GraphStep::Endpoints;
                    Ok(job)
                }
            },
            (GraphStep::Endpoints, GraphReply::Nodes(records)) => {
                let mut more = rows::map_nodes(records);
                job.nodes.append(&mut more);
                Ok(job.connect())
            },
            (GraphStep::Files, GraphReply::Files(files)) => {
                job.files = files;
                job.step = GraphStep::Done;
                Ok(job)
            },
            _ => Ok(job),
        }
    }

    /// Hands out the graph once it is complete.
    pub fn respond(self) -> (response: GraphResponse)
        requires
            valid(self@),
            self@.step is Done,
        ensures
            response.db_path@ == self@.db_path,
            response.summary@ == self@.totals,
            response.summary.file_count == self@.totals.file_count,
            response.summary.node_count == self@.totals.node_count,
            response.summary.edge_count == self@.totals.edge_count,
            response.summary.unresolved_count == self@.totals.unresolved_count,
            response.summary.languages@ == self@.totals.languages,
            response.summary.node_kinds@ == self@.totals.node_kinds,
            response.summary.edge_kinds@ == self@.totals.edge_kinds,
            response.files@ == self@.files,
            response.nodes@ == self@.nodes,
            response.edges@ == self@.edges,
            response.filters.languages@ == self@.totals.languages,
            response.filters.node_kinds@ == self@.totals.node_kinds,
            response.filters.edge_kinds@ == self@.totals.edge_kinds,
            closed_graph(response.nodes@, response.edges@),
    {
        let filters = Filters {
            languages: self.summary.languages.clone(),
            node_kinds: self.summary.node_kinds.clone(),
            edge_kinds: self.summary.edge_kinds.clone(),
        };
        assert(filters.languages@ =~= self.summary.languages@);
        assert(filters.node_kinds@ =~= self.summary.node_kinds@);
        assert(filters.edge_kinds@ =~= self.summary.edge_kinds@);
        GraphResponse {
            db_path: self.db_path,
            summary: self.summary,
            files: self.files,
            nodes: self.nodes,
            edges: self.edges,
            filters,
        }
    }
}

/// How far a step is from the start, at most.
pub open spec fn rank(step: GraphStep) -> nat {
    match step {
        GraphStep::FindFiles => 0,
        GraphStep::FindNodes => 1,
        GraphStep::FindEdges => 2,
        GraphStep::CountFiles => 3,
        GraphStep::CountNodes => 4,
        GraphStep::CountEdges => 5,
        GraphStep::FindUnresolved => 6,
        GraphStep::CountUnresolved => 7,
        GraphStep::Languages => 8,
        GraphStep::NodeKinds => 9,
        GraphStep::EdgeKinds => 10,
        GraphStep::Nodes => 11,
        GraphStep::Edges => 12,
        GraphStep::Endpoints => 13,
        GraphStep::Files => 14,
        GraphStep::Done => 15,
    }
}

/// Every answer leads on towards the end, so that no graph takes more answers than there are steps.
pub proof fn law_answers_lead_on(state: GraphState, answer: Answer)
    requires
        fits(state, answer),
    ensures
        next(state, answer) matches Ok(after) ==> rank(state.step) < rank(after.step) <= rank(
            GraphStep::Done,
        ),
{
}

/// A request is only refused over a table that is missing, and the message names the table.
pub proof fn law_only_missing_tables_are_refused(state: GraphState, answer: Answer)
    requires
        fits(state, answer),
    ensures
        next(state, answer) is Err <==> answer == Answer::Count(0) && (state.step is FindFiles
            || state.step is FindNodes || state.step is FindEdges),
        next(state, answer) matches Err(message) ==> message == no_table(
            match state.step {
                GraphStep::FindFiles => "files"@,
                GraphStep::FindNodes => "nodes"@,
                _ => "edges"@,
            },
        ),
{
}

/// What is asked for stays the same from the start to the end.
pub proof fn law_answers_keep_the_request(state: GraphState, answer: Answer)
    ensures
        next(state, answer) matches Ok(after) ==> {
            &&& after.db_path == state.db_path
            &&& after.limit == state.limit
            &&& after.query == state.query
            &&& after.languages == state.languages
            &&& after.kinds == state.kinds
        },
{
}

/// A database, by what it answers.
pub struct Database {
    pub counts: spec_fn(sql::Question) -> i64,
    pub buckets: spec_fn(sql::Question) -> Seq<Bucket>,
    pub nodes: spec_fn(sql::Question) -> Seq<NodeRecord>,
    pub edges: spec_fn(sql::Question) -> Seq<EdgeRow>,
    pub files: spec_fn(sql::Question) -> Seq<FileRow>,
}

/// What a database answers.
pub open spec fn answer_of(db: Database, ask: Ask) -> Answer {
    match ask {
        Ask::Count(question) => Answer::Count((db.counts)(question)),
        Ask::Buckets(question) => Answer::Buckets((db.buckets)(question)),
        Ask::Nodes(question) => Answer::Nodes((db.nodes)(question)),
        Ask::Edges(question) => Answer::Edges((db.edges)(question)),
        Ask::Files(question) => Answer::Files((db.files)(question)),
        Ask::Nothing => Answer::Count(0),
    }
}

/// Where a database leads a graph in some steps, unless it is complete before.
pub open spec fn driven(db: Database, state: GraphState, steps: nat) -> Result<
    GraphState,
    Seq<char>,
>
    decreases steps,
{
    if steps == 0 || state.step is Done {
        Ok(state)
    } else {
        match next(state, answer_of(db, asked(state))) {
            Ok(after) => driven(db, after, (steps - 1) as nat),
            Err(message) => Err(message),
        }
    }
}

/// A graph, as the page shows it.
#[verifier::ext_equal]
pub struct Graph {
    pub totals: Totals,
    pub nodes: Seq<NodeRow>,
    pub edges: Seq<EdgeRow>,
    pub files: Seq<FileRow>,
}

/// The graph that has been put together.
pub open spec fn graph_in(state: GraphState) -> Graph {
    Graph {
        totals: state.totals,
        nodes: state.nodes,
        edges: state.edges,
        files: state.files,
    }
}

/// Whether a database has a table.
pub open spec fn has_table(db: Database, table: Seq<char>) -> bool {
    (db.counts)(sql::table_question(table)) != 0
}

/// How many rows a table has.
pub open spec fn row_count(db: Database, table: Seq<char>) -> i64 {
    (db.counts)(sql::plain(sql::COUNT_ROWS@ + table))
}

/// How many rows a table has that may be missing: what is answered to what is asked about it.
pub open spec fn optional_row_count(db: Database, table: Seq<char>) -> i64 {
    match sql::optional_question(table, (db.counts)(sql::table_question(table))) {
        Some(question) => (db.counts)(question),
        None => 0,
    }
}

/// The size of a whole database; without a table of unresolved references there are none.
pub open spec fn totals_of(db: Database) -> Totals {
    Totals {
        file_count: row_count(db, "files"@),
        node_count: row_count(db, "nodes"@),
        edge_count: row_count(db, "edges"@),
        unresolved_count: optional_row_count(db, "unresolved_refs"@),
        languages: (db.buckets)(sql::plain(sql::LANGUAGES@)),
        node_kinds: (db.buckets)(sql::plain(sql::NODE_KINDS@)),
        edge_kinds: (db.buckets)(sql::plain(sql::EDGE_KINDS@)),
    }
}

/// The rows of the nodes that a request is about.
pub open spec fn wanted_records(db: Database, request: GraphRequest) -> Seq<NodeRecord> {
    (db.nodes)(
        sql::nodes_question(
            limit_of(request),
            text_or_empty(request.query),
            sql::json_filter(option_texts(request.languages)),
            sql::json_filter(option_texts(request.kinds)),
        ),
    )
}

/// The nodes that a request is about.
pub open spec fn wanted_nodes(db: Database, request: GraphRequest) -> Seq<NodeRow> {
    rows::nodes_of(wanted_records(db, request))
}

/// The edges of some nodes: three times as many as nodes may be asked for.
pub open spec fn edges_at(db: Database, nodes: Seq<NodeRow>, limit: nat) -> Seq<EdgeRow> {
    if nodes.len() == 0 {
        Seq::empty()
    } else {
        (db.edges)(
            sql::edges_question(sql::json_strings(rows::ids_of(nodes)), (3 * limit) as i64),
        )
    }
}

/// The nodes with some ids.
pub open spec fn nodes_at(db: Database, ids: Seq<Seq<char>>) -> Seq<NodeRow> {
    if ids.len() == 0 {
        Seq::empty()
    } else {
        rows::nodes_of((db.nodes)(sql::nodes_by_ids_question(sql::json_strings(ids))))
    }
}

/// The files of some nodes.
pub open spec fn files_at(db: Database, nodes: Seq<NodeRow>) -> Seq<FileRow> {
    if nodes.len() == 0 {
        Seq::empty()
    } else {
        (db.files)(sql::files_question(sql::json_strings(rows::ids_of(nodes))))
    }
}

/// The graph that a request asks for: the nodes it is about and those at the other ends of their
/// edges, half as many of these as nodes may be asked for; the edges between all of them; and
/// their files.
pub open spec fn graph_of(db: Database, request: GraphRequest) -> Graph {
    let limit = limit_of(request);
    let wanted = wanted_nodes(db, request);
    let edges = edges_at(db, wanted, limit);
    let missing = endpoints::missing_ids(edges, rows::ids_of(wanted), limit / 2);
    let nodes = wanted + nodes_at(db, missing);
    Graph {
        totals: totals_of(db),
        nodes,
        edges: edges.filter(endpoints::connects(rows::ids_of(nodes))),
        files: files_at(db, nodes),
    }
}

/// The first table that a database has to have and has not.
pub open spec fn lacking(db: Database) -> Option<Seq<char>> {
    if !has_table(db, "files"@) {
        Some("files"@)
    } else if !has_table(db, "nodes"@) {
        Some("nodes"@)
    } else if !has_table(db, "edges"@) {
        Some("edges"@)
    } else {
        None
    }
}

/// One step of a graph that is not complete.
proof fn lemma_step(db: Database, state: GraphState, steps: nat)
    requires
        steps > 0,
        !(state.step is Done),
    ensures
        driven(db, state, steps) == match next(state, answer_of(db, asked(state))) {
            Ok(after) => driven(db, after, (steps - 1) as nat),
            Err(message) => Err(message),
        },
{
}

/// The steps that look for the tables.
proof fn lemma_schema_steps(db: Database, state: GraphState, steps: nat)
    requires
        state.step is FindFiles,
        steps >= 3,
    ensures
        driven(db, state, steps) == match lacking(db) {
            Some(table) => Err(no_table(table)),
            None => driven(
                db,
                GraphState { step: GraphStep::CountFiles, ..state },
                (steps - 3) as nat,
            ),
        },
{
    lemma_step(db, state, steps);
    let found_files = GraphState { step: GraphStep::FindNodes, ..state };
    lemma_step(db, found_files, (steps - 1) as nat);
    let found_nodes = GraphState { step: GraphStep::FindEdges, ..state };
    lemma_step(db, found_nodes, (steps - 2) as nat);
}

/// The steps that count.
proof fn lemma_count_steps(db: Database, state: GraphState, steps: nat)
    requires
        state.step is CountFiles,
        state.totals == no_totals(),
        steps >= 8,
    ensures
        exists|left: nat|
            steps - 8 <= left <= steps - 7 && driven(db, state, steps) == #[trigger] driven(
                db,
                GraphState { step: GraphStep::Nodes, totals: totals_of(db), ..state },
                left,
            ),
{
    let all = totals_of(db);
    lemma_step(db, state, steps);
    let files = Totals { file_count: all.file_count, ..no_totals() };
    let s1 = GraphState { step: GraphStep::CountNodes, totals: files, ..state };
    lemma_step(db, s1, (steps - 1) as nat);
    let nodes = Totals { node_count: all.node_count, ..files };
    let s2 = GraphState { step: GraphStep::CountEdges, totals: nodes, ..state };
    lemma_step(db, s2, (steps - 2) as nat);
    let edges = Totals { edge_count: all.edge_count, ..nodes };
    let s3 = GraphState { step: GraphStep::FindUnresolved, totals: edges, ..state };
    lemma_step(db, s3, (steps - 3) as nat);
    let counts = Totals { unresolved_count: all.unresolved_count, ..edges };
    let s5 = GraphState { step: GraphStep::Languages, totals: counts, ..state };
    let left: nat = if has_table(db, "unresolved_refs"@) {
        let s4 = GraphState { step: GraphStep::CountUnresolved, totals: edges, ..state };
        lemma_step(db, s4, (steps - 4) as nat);
        (steps - 5) as nat
    } else {
        assert(edges == counts);
        (steps - 4) as nat
    };
    assert(driven(db, state, steps) == driven(db, s5, left));
    lemma_step(db, s5, left);
    let languages = Totals { languages: all.languages, ..counts };
    let s6 = GraphState { step: GraphStep::NodeKinds, totals: languages, ..state };
    lemma_step(db, s6, (left - 1) as nat);
    let kinds = Totals { node_kinds: all.node_kinds, ..languages };
    let s7 = GraphState { step: GraphStep::EdgeKinds, totals: kinds, ..state };
    lemma_step(db, s7, (left - 2) as nat);
    let s8 = GraphState { step: GraphStep::Nodes, totals: all, ..state };
    assert(driven(db, state, steps) == driven(db, s8, (left - 3) as nat));
}

/// The steps from the nodes on.
proof fn lemma_node_steps(
    db: Database,
    state: GraphState,
    steps: nat,
    db_path: Seq<char>,
    request: GraphRequest,
)
    requires
        state == (GraphState {
            step: GraphStep::Nodes,
            totals: totals_of(db),
            ..start_of(db_path, request)
        }),
        steps >= 4,
    ensures
        driven(db, state, steps) matches Ok(after) && after.step is Done && after.db_path == db_path
            && graph_in(after) == graph_of(db, request),
{
    let graph = graph_of(db, request);
    let wanted = wanted_nodes(db, request);
    let edges = edges_at(db, wanted, limit_of(request));
    let missing = endpoints::missing_ids(edges, rows::ids_of(wanted), limit_of(request) / 2);
    assert(wanted + Seq::<NodeRow>::empty() =~= wanted);
    lemma_step(db, state, steps);
    if wanted.len() == 0 {
        let s1 = GraphState { step: GraphStep::Done, nodes: wanted, ..state };
        assert(driven(db, state, steps) == driven(db, s1, (steps - 1) as nat));
        assert(endpoints::endpoints(edges).len() == 0);
        assert(missing.len() == 0);
        assert(graph.nodes == wanted);
        assert(graph.edges =~= Seq::empty()) by {
            edges.lemma_filter_len(endpoints::connects(rows::ids_of(wanted)));
        }
    } else {
        let s1 = GraphState { step: GraphStep::Edges, nodes: wanted, ..state };
        assert(driven(db, state, steps) == driven(db, s1, (steps - 1) as nat));
        lemma_step(db, s1, (steps - 1) as nat);
        let found = GraphState { edges, missing, ..s1 };
        let left: nat = if missing.len() == 0 {
            (steps - 2) as nat
        } else {
            let s2 = GraphState { step: GraphStep::Endpoints, ..found };
            assert(driven(db, state, steps) == driven(db, s2, (steps - 2) as nat));
            lemma_step(db, s2, (steps - 2) as nat);
            (steps - 3) as nat
        };
        let s3 = GraphState {
            step: GraphStep::Files,
            nodes: graph.nodes,
            edges: graph.edges,
            ..found
        };
        assert(driven(db, state, steps) == driven(db, s3, left));
        lemma_step(db, s3, left);
        let s4 = GraphState { step: GraphStep::Done, files: graph.files, ..s3 };
        assert(driven(db, state, steps) == driven(db, s4, (left - 1) as nat));
    }
}

/// From a database that does not change meanwhile, a request is answered with the graph that it
/// asks for; unless the database lacks a table, which the refusal names.
pub proof fn law_request_is_answered(db: Database, db_path: Seq<char>, request: GraphRequest)
    ensures
        match lacking(db) {
            Some(table) => driven(db, start_of(db_path, request), rank(GraphStep::Done)) == Err::<
                GraphState,
                Seq<char>,
            >(no_table(table)),
            None => {
                &&& driven(db, start_of(db_path, request), rank(GraphStep::Done)) matches Ok(after)
                &&& after.step is Done
                &&& after.db_path == db_path
                &&& graph_in(after) == graph_of(db, request)
            },
        },
{
    let start = start_of(db_path, request);
    lemma_schema_steps(db, start, 15);
    if lacking(db) is None {
        let counting = GraphState { step: GraphStep::CountFiles, ..start };
        lemma_count_steps(db, counting, 12);
        let counted = GraphState { step: GraphStep::Nodes, totals: totals_of(db), ..counting };
        let left = choose|left: nat|
            12 - 8 <= left <= 12 - 7 && driven(db, counting, 12) == #[trigger] driven(
                db,
                counted,
                left,
            );
        lemma_node_steps(db, counted, left, db_path, request);
    }
}

/// Every edge that is shown runs between two nodes that are shown, and the nodes that the request
/// is about are shown first.
pub proof fn law_shown_graph_is_closed(db: Database, request: GraphRequest)
    ensures
        closed_graph(graph_of(db, request).nodes, graph_of(db, request).edges),
        wanted_nodes(db, request).is_prefix_of(graph_of(db, request).nodes),
{
    let graph = graph_of(db, request);
    let edges = edges_at(db, wanted_nodes(db, request), limit_of(request));
    let keep = endpoints::connects(rows::ids_of(graph.nodes));
    assert forall|i: int| 0 <= i < edges.filter(keep).len() implies keep(
        #[trigger] edges.filter(keep)[i],
    ) by {
        edges.lemma_filter_pred(keep, i);
    }
    let wanted = wanted_nodes(db, request);
    assert(graph.nodes.subrange(0, wanted.len() as int) =~= wanted);
}

/// If the bound on the other ends lets all of them through, and the database has a node for each of
/// them, then all edges of the nodes that the request is about are shown.
pub proof fn law_all_edges_are_shown(db: Database, request: GraphRequest)
    requires
        ({
            let wanted = wanted_nodes(db, request);
            let edges = edges_at(db, wanted, limit_of(request));
            let ids = rows::ids_of(wanted);
            let missing = endpoints::missing_ids(edges, ids, limit_of(request) / 2);
            &&& endpoints::unseen(endpoints::endpoints(edges), ids).len() <= limit_of(request) / 2
            &&& forall|id: Seq<char>| #[trigger]
                missing.contains(id) ==> rows::ids_of(nodes_at(db, missing)).contains(id)
        }),
    ensures
        graph_of(db, request).edges == edges_at(db, wanted_nodes(db, request), limit_of(request)),
{
    let wanted = wanted_nodes(db, request);
    let edges = edges_at(db, wanted, limit_of(request));
    let ids = rows::ids_of(wanted);
    let missing = endpoints::missing_ids(edges, ids, limit_of(request) / 2);
    let found = rows::ids_of(nodes_at(db, missing));
    endpoints::law_no_edge_is_lost(edges, ids, limit_of(request) / 2, found);
    assert(rows::ids_of(graph_of(db, request).nodes) =~= ids + found);
}

/// A table that is missing counts as one without rows; any other is counted.
pub proof fn law_missing_table_has_no_rows(db: Database, table: Seq<char>)
    ensures
        !has_table(db, table) ==> optional_row_count(db, table) == 0,
        has_table(db, table) ==> optional_row_count(db, table) == row_count(db, table),
{
}

/// Whether an edge starts or ends at one of some nodes.
pub open spec fn touches(edge: EdgeRow, ids: Seq<Seq<char>>) -> bool {
    ids.contains(edge.source@) || ids.contains(edge.target@)
}

/// Whether the query and the filters of a request choose a row of the table of nodes.
pub open spec fn chosen(request: GraphRequest) -> spec_fn(NodeRecord) -> bool {
    |record: NodeRecord|
        sql::asks_for(
            text_or_empty(request.query),
            option_texts(request.languages),
            option_texts(request.kinds),
            record,
        )
}

/// Whether a database sends, for a request, no row but those that the statements ask for, and no more
/// of them than the statements let through.
pub open spec fn sends_asked_rows(db: Database, request: GraphRequest) -> bool {
    let limit = limit_of(request);
    let records = wanted_records(db, request);
    let ids = rows::ids_of(wanted_nodes(db, request));
    let edges = edges_at(db, wanted_nodes(db, request), limit);
    let missing = endpoints::missing_ids(edges, ids, limit / 2);
    let added = nodes_at(db, missing);
    &&& records.len() <= limit
    &&& forall|i: int| 0 <= i < records.len() ==> chosen(request)(#[trigger] records[i])
    &&& edges.len() <= 3 * limit
    &&& forall|i: int| 0 <= i < edges.len() ==> touches(#[trigger] edges[i], ids)
    &&& forall|i: int| 0 <= i < added.len() ==> missing.contains((#[trigger] added[i]).id@)
}

/// Whether a database sends, for a request, no two nodes with one id at a time.
pub open spec fn sends_distinct_nodes(db: Database, request: GraphRequest) -> bool {
    let limit = limit_of(request);
    let ids = rows::ids_of(wanted_nodes(db, request));
    let edges = edges_at(db, wanted_nodes(db, request), limit);
    &&& ids.no_duplicates()
    &&& rows::ids_of(
        nodes_at(db, endpoints::missing_ids(edges, ids, limit / 2)),
    ).no_duplicates()
}

/// Whether a database with a table of nodes sends, for a request, all rows of the table that the
/// statement for nodes asks for, if it lets so many through.
pub open spec fn sends_all_asked_rows(
    db: Database,
    table: Seq<NodeRecord>,
    request: GraphRequest,
) -> bool {
    table.filter(chosen(request)).len() <= limit_of(request) ==> forall|i: int|
        0 <= i < table.len() && chosen(request)(#[trigger] table[i]) ==> wanted_records(
            db,
            request,
        ).contains(table[i])
}

/// Whether a name or the path of a node holds the query of a request, and the filters let the node
/// through. A filter that is empty lets all nodes through.
pub open spec fn is_searched_for(request: GraphRequest, node: NodeRow) -> bool {
    let query = text::trimmed(text_or_empty(request.query));
    let languages = option_texts(request.languages);
    let kinds = option_texts(request.kinds);
    &&& sql::holds(node.name@, query) || sql::holds(node.qualified_name@, query) || sql::holds(
        node.file_path@,
        query,
    )
    &&& languages.len() == 0 || languages.contains(node.language@)
    &&& kinds.len() == 0 || kinds.contains(node.kind@)
}

/// The statement of a request asks for the nodes that are searched for.
proof fn lemma_chosen(request: GraphRequest, record: NodeRecord)
    ensures
        chosen(request)(record) <==> is_searched_for(request, rows::node_of(record)),
{
    sql::law_nodes_are_asked_for_by_name_and_path(
        text_or_empty(request.query),
        option_texts(request.languages),
        option_texts(request.kinds),
        record,
    );
}

/// A request is about nodes that it searches for, and no others.
pub proof fn law_request_is_about_searched_nodes(db: Database, request: GraphRequest)
    requires
        sends_asked_rows(db, request),
    ensures
        forall|i: int|
            0 <= i < wanted_nodes(db, request).len() ==> is_searched_for(
                request,
                #[trigger] wanted_nodes(db, request)[i],
            ),
{
    let records = wanted_records(db, request);
    assert forall|i: int| 0 <= i < wanted_nodes(db, request).len() implies is_searched_for(
        request,
        #[trigger] wanted_nodes(db, request)[i],
    ) by {
        assert(chosen(request)(records[i]));
        lemma_chosen(request, records[i]);
    }
}

/// Every node that a request searches for is shown, if the limit is not below the number of nodes.
pub proof fn law_searched_nodes_are_shown(
    db: Database,
    table: Seq<NodeRecord>,
    request: GraphRequest,
    index: int,
)
    requires
        sends_all_asked_rows(db, table, request),
        table.len() <= limit_of(request),
        0 <= index < table.len(),
        is_searched_for(request, rows::node_of(table[index])),
    ensures
        wanted_nodes(db, request).contains(rows::node_of(table[index])),
        graph_of(db, request).nodes.contains(rows::node_of(table[index])),
{
    lemma_chosen(request, table[index]);
    table.lemma_filter_len(chosen(request));
    let records = wanted_records(db, request);
    let i = choose|i: int| 0 <= i < records.len() && records[i] == table[index];
    assert(wanted_nodes(db, request)[i] == rows::node_of(table[index]));
    assert(graph_of(db, request).nodes[i] == rows::node_of(table[index]));
}

/// Whether an edge runs between the node with an id and one of some others.
pub open spec fn joins(edge: EdgeRow, id: Seq<char>, others: Seq<Seq<char>>) -> bool {
    ||| edge.source@ == id && others.contains(edge.target@)
    ||| edge.target@ == id && others.contains(edge.source@)
}

/// Every edge that is shown starts or ends at a node that the request is about, and every node that
/// is shown besides these is joined to one of them by an edge that is shown.
pub proof fn law_added_nodes_are_joined(db: Database, request: GraphRequest)
    requires
        sends_asked_rows(db, request),
    ensures
        forall|k: int|
            0 <= k < graph_of(db, request).edges.len() ==> touches(
                #[trigger] graph_of(db, request).edges[k],
                rows::ids_of(wanted_nodes(db, request)),
            ),
        forall|i: int|
            #![trigger graph_of(db, request).nodes[i]]
            wanted_nodes(db, request).len() <= i < graph_of(db, request).nodes.len() ==> exists|
                k: int,
            |
                0 <= k < graph_of(db, request).edges.len() && joins(
                    #[trigger] graph_of(db, request).edges[k],
                    graph_of(db, request).nodes[i].id@,
                    rows::ids_of(wanted_nodes(db, request)),
                ),
{
    let graph = graph_of(db, request);
    let limit = limit_of(request);
    let wanted = wanted_nodes(db, request);
    let ids = rows::ids_of(wanted);
    let edges = edges_at(db, wanted, limit);
    let missing = endpoints::missing_ids(edges, ids, limit / 2);
    let added = nodes_at(db, missing);
    let all = rows::ids_of(graph.nodes);
    endpoints::law_missing_ids(edges, ids, limit / 2);
    assert forall|k: int| 0 <= k < graph.edges.len() implies touches(
        #[trigger] graph.edges[k],
        ids,
    ) by {
        let edge = graph.edges[k];
        assert(graph.edges.contains(edge));
        endpoints::law_kept_edges_connect(edges, all, edge);
        let i = choose|i: int| 0 <= i < edges.len() && edges[i] == edge;
        assert(touches(edges[i], ids));
    }
    assert forall|i: int|
        #![trigger graph.nodes[i]]
        wanted.len() <= i < graph.nodes.len() implies exists|k: int|
            0 <= k < graph.edges.len() && joins(
            #[trigger] graph.edges[k],
            graph.nodes[i].id@,
            ids,
        ) by {
        let id = graph.nodes[i].id@;
        assert(graph.nodes[i] == added[i - wanted.len()]);
        assert(missing.contains(id));
        endpoints::lemma_endpoint_has_edge(edges, id);
        let j = choose|j: int|
            #![trigger edges[j]]
            0 <= j < edges.len() && (edges[j].source@ == id || edges[j].target@ == id);
        let edge = edges[j];
        assert(touches(edge, ids));
        assert(all[i] == id);
        let other = if edge.source@ == id {
            edge.target@
        } else {
            edge.source@
        };
        let n = choose|n: int| 0 <= n < ids.len() && ids[n] == other;
        assert(all[n] == other);
        assert(edges.contains(edge));
        endpoints::law_kept_edges_connect(edges, all, edge);
        let k = choose|k: int| 0 <= k < graph.edges.len() && graph.edges[k] == edge;
        assert(joins(graph.edges[k], id, ids));
    }
}

/// No more nodes are shown than one and a half times the limit, no two of them with one id, and no
/// more edges than three times the limit.
pub proof fn law_shown_graph_is_bounded(db: Database, request: GraphRequest)
    requires
        sends_asked_rows(db, request),
        sends_distinct_nodes(db, request),
    ensures
        wanted_nodes(db, request).len() <= limit_of(request),
        graph_of(db, request).nodes.len() <= limit_of(request) + limit_of(request) / 2,
        graph_of(db, request).edges.len() <= 3 * limit_of(request),
        rows::ids_of(graph_of(db, request).nodes).no_duplicates(),
{
    let graph = graph_of(db, request);
    let limit = limit_of(request);
    let wanted = wanted_nodes(db, request);
    let ids = rows::ids_of(wanted);
    let edges = edges_at(db, wanted, limit);
    let missing = endpoints::missing_ids(edges, ids, limit / 2);
    let added = nodes_at(db, missing);
    let more = rows::ids_of(added);
    endpoints::law_missing_ids(edges, ids, limit / 2);
    edges.lemma_filter_len(endpoints::connects(rows::ids_of(graph.nodes)));
    assert forall|i: int| 0 <= i < more.len() implies missing.contains(#[trigger] more[i]) by {
        assert(more[i] == added[i].id@);
    }
    assert(more.len() <= missing.len()) by {
        more.unique_seq_to_set();
        missing.unique_seq_to_set();
        assert(more.to_set().subset_of(missing.to_set()));
        vstd::set_lib::lemma_len_subset(more.to_set(), missing.to_set());
    }
    assert(rows::ids_of(graph.nodes) =~= ids + more);
}

/// Whatever is to be done and whatever the database answers is taken as it stands.
pub proof fn law_nothing_is_left_out_on_the_way(
    statement: Statement,
    count: i64,
    buckets: Vec<Bucket>,
    records: Vec<NodeRecord>,
    edges: Vec<EdgeRow>,
    files: Vec<FileRow>,
)
    ensures
        GraphAction::Count(statement)@ == Ask::Count(statement@),
        GraphAction::Buckets(statement)@ == Ask::Buckets(statement@),
        GraphAction::Nodes(statement)@ == Ask::Nodes(statement@),
        GraphAction::Edges(statement)@ == Ask::Edges(statement@),
        GraphAction::Files(statement)@ == Ask::Files(statement@),
        GraphAction::Respond@ == Ask::Nothing,
        GraphReply::Count(count)@ == Answer::Count(count),
        GraphReply::Buckets(buckets)@ == Answer::Buckets(buckets@),
        GraphReply::Nodes(records)@ == Answer::Nodes(records@),
        GraphReply::Edges(edges)@ == Answer::Edges(edges@),
        GraphReply::Files(files)@ == Answer::Files(files@),
{
}

/// A step is followed by what the answer makes of it, or by a refusal with the message, and by
/// nothing else.
pub proof fn law_answer_leads_to_one_result(
    result: Result<GraphJob, AppError>,
    state: GraphState,
    answer: Answer,
)
    requires
        GraphJob::follows(result, state, answer),
    ensures
        result is Ok <==> next(state, answer) is Ok,
        result is Ok ==> result->Ok_0@ == next(state, answer)->Ok_0,
        result is Err ==> result->Err_0.status is BadRequest && result->Err_0.message@ == next(
            state,
            answer,
        )->Err_0,
{
}

/// Any answer will do that is of the kind that a step asks for.
pub proof fn law_answers_of_the_right_kind_fit(state: GraphState, answer: Answer)
    ensures
        asked(state) is Count ==> (fits(state, answer) <==> answer is Count),
        asked(state) is Buckets ==> (fits(state, answer) <==> answer is Buckets),
        asked(state) is Nodes ==> (fits(state, answer) <==> answer is Nodes),
        asked(state) is Edges ==> (fits(state, answer) <==> answer is Edges),
        asked(state) is Files ==> (fits(state, answer) <==> answer is Files),
        asked(state) is Nothing <==> state.step is Done,
{
}

/// A request is taken as it says: without a limit five hundred nodes are asked for, never fewer than
/// fifty or more than three thousand, and what is missing from the request is empty.
pub proof fn law_request_is_taken_as_it_says(db_path: Seq<char>, request: GraphRequest)
    ensures
        start_of(db_path, request).db_path == db_path,
        start_of(db_path, request).limit == limit_of(request),
        request.limit is None ==> limit_of(request) == 500,
        request.limit is Some && 50 <= request.limit->0 <= 3000 ==> limit_of(request)
            == request.limit->0,
        request.limit is Some && request.limit->0 < 50 ==> limit_of(request) == 50,
        request.limit is Some && request.limit->0 > 3000 ==> limit_of(request) == 3000,
        start_of(db_path, request).query == text_or_empty(request.query),
        request.query is Some ==> text_or_empty(request.query) == request.query->0@,
        request.query is None ==> text_or_empty(request.query).len() == 0,
        start_of(db_path, request).languages == option_texts(request.languages),
        start_of(db_path, request).kinds == option_texts(request.kinds),
        request.languages is None ==> option_texts(request.languages).len() == 0,
        request.languages is Some ==> option_texts(request.languages).len()
            == request.languages->0@.len(),
        request.languages is Some ==> forall|i: int|
            0 <= i < request.languages->0@.len() ==> #[trigger] option_texts(request.languages)[i]
                == request.languages->0@[i]@,
        request.kinds is None ==> option_texts(request.kinds).len() == 0,
        request.kinds is Some ==> option_texts(request.kinds).len() == request.kinds->0@.len(),
        request.kinds is Some ==> forall|i: int|
            0 <= i < request.kinds->0@.len() ==> #[trigger] option_texts(request.kinds)[i]
                == request.kinds->0@[i]@,
{
}

/// At the step for nodes, the statement that is put to the database selects a row if and only if one
/// of its names or its path holds the query, its language is one of the languages if any are listed,
/// and its kind one of the kinds if any are listed. JSON arrays are read by `listed`.
pub proof fn law_nodes_are_asked_for_by_query_and_filters(
    state: GraphState,
    listed: spec_fn(Seq<char>) -> Seq<Seq<char>>,
    record: NodeRecord,
)
    requires
        state.step is Nodes,
        listed(sql::json_strings(state.languages)) == state.languages,
        listed(sql::json_strings(state.kinds)) == state.kinds,
    ensures
        ({
            let head = "select id, kind, name, qualified_name, file_path, language, start_line, end_line, signature, docstring, visibility, is_exported, is_async, is_static, is_abstract from nodes"@;
            let query = text::trimmed(state.query);
            &&& asked(state) matches Ask::Nodes(question)
            &&& head.is_prefix_of(question.sql)
            &&& sql::selects(
                question.sql.skip(head.len() as int),
                true,
                question.params,
                listed,
                record,
            ) <==> (sql::holds(record.name@, query) || sql::holds(record.qualified_name@, query)
                || sql::holds(record.file_path@, query)) && (state.languages.len() == 0
                || state.languages.contains(record.language@)) && (state.kinds.len() == 0
                || state.kinds.contains(record.kind@))
            &&& question.params.last() matches Bound::Text(digits)
            &&& text::number_of(digits) == state.limit
        }),
{
    sql::law_nodes_statement_selects_what_is_searched_for(
        state.limit,
        state.query,
        state.languages,
        state.kinds,
        listed,
        record,
    );
}

/// How a request ends that is put to a database.
pub open spec fn outcome(db: Database, db_path: Seq<char>, request: GraphRequest) -> Result<
    GraphState,
    Seq<char>,
> {
    driven(db, start_of(db_path, request), 15)
}

/// How many tables and views of a name a database finds.
pub open spec fn looked_up(db: Database, table: Seq<char>) -> i64 {
    (db.counts)(
        sql::Question {
            sql: "select count(*) from sqlite_master where type in ('table', 'view') and name = ?1"@,
            params: seq![Bound::Text(table)],
        },
    )
}

/// What a database says that the size of a table is.
pub open spec fn counted(db: Database, table: Seq<char>) -> i64 {
    (db.counts)(sql::Question { sql: "select count(*) from "@ + table, params: Seq::empty() })
}

/// A request is answered if the tables of files, of nodes and of edges are found, and else refused
/// over the first of them that is missing.
pub proof fn law_request_needs_three_tables(
    db: Database,
    db_path: Seq<char>,
    request: GraphRequest,
)
    ensures
        outcome(db, db_path, request) is Ok <==> looked_up(db, "files"@) != 0 && looked_up(
            db,
            "nodes"@,
        ) != 0 && looked_up(db, "edges"@) != 0,
        outcome(db, db_path, request) is Ok ==> outcome(db, db_path, request)->Ok_0.step is Done
            && outcome(db, db_path, request)->Ok_0.db_path == db_path,
        looked_up(db, "files"@) == 0 ==> outcome(db, db_path, request)->Err_0
            == "db 缺少必要表: "@ + "files"@,
        looked_up(db, "files"@) != 0 && looked_up(db, "nodes"@) == 0 ==> outcome(
            db,
            db_path,
            request,
        )->Err_0 == "db 缺少必要表: "@ + "nodes"@,
        looked_up(db, "files"@) != 0 && looked_up(db, "nodes"@) != 0 && looked_up(db, "edges"@) == 0
            ==> outcome(db, db_path, request)->Err_0 == "db 缺少必要表: "@ + "edges"@,
{
    law_request_is_answered(db, db_path, request);
}

/// The summary of an answer holds the sizes of the tables of files, nodes and edges, that of the
/// table of unresolved references or none if there is no such table, and how the nodes divide by
/// language and by kind, and the edges by kind.
pub proof fn law_summary_counts_each_table(
    db: Database,
    db_path: Seq<char>,
    request: GraphRequest,
)
    ensures
        outcome(db, db_path, request) matches Ok(after) ==> {
            &&& after.totals.file_count == counted(db, "files"@)
            &&& after.totals.node_count == counted(db, "nodes"@)
            &&& after.totals.edge_count == counted(db, "edges"@)
            &&& looked_up(db, "unresolved_refs"@) == 0 ==> after.totals.unresolved_count == 0
            &&& looked_up(db, "unresolved_refs"@) != 0 ==> after.totals.unresolved_count == counted(
                db,
                "unresolved_refs"@,
            )
            &&& after.totals.languages == (db.buckets)(sql::grouping("language"@, "nodes"@))
            &&& after.totals.node_kinds == (db.buckets)(sql::grouping("kind"@, "nodes"@))
            &&& after.totals.edge_kinds == (db.buckets)(sql::grouping("kind"@, "edges"@))
        },
{
    law_request_is_answered(db, db_path, request);
    sql::law_rows_are_divided_by_columns();
}

/// How often a value is in a list.
pub open spec fn occurrences(values: Seq<Seq<char>>, value: Seq<char>) -> nat {
    values.filter(|other: Seq<char>| other == value).len()
}

/// Whether buckets say how a list of values divides: each value that occurs has one bucket, which
/// counts how often.
pub open spec fn divides(buckets: Seq<Bucket>, values: Seq<Seq<char>>) -> bool {
    &&& forall|i: int|
        #![trigger buckets[i]]
        0 <= i < buckets.len() ==> values.contains(buckets[i].name@) && buckets[i].count
            == occurrences(values, buckets[i].name@)
    &&& forall|value: Seq<char>| #[trigger]
        values.contains(value) ==> exists|i: int|
            0 <= i < buckets.len() && (#[trigger] buckets[i]).name@ == value
    &&& forall|i: int, j: int|
        0 <= i < j < buckets.len() ==> (#[trigger] buckets[i]).name@ != (
        #[trigger] buckets[j]).name@
}

/// If a database with a table of nodes and one of edges divides their rows by the columns that a
/// statement names, then the languages and the node kinds of the summary are those of the nodes,
/// with the number of nodes of each, and the edge kinds those of the edges.
pub proof fn law_summary_divides_the_rows(
    db: Database,
    db_path: Seq<char>,
    request: GraphRequest,
    nodes: Seq<NodeRecord>,
    edges: Seq<EdgeRow>,
)
    requires
        divides(
            (db.buckets)(sql::grouping("language"@, "nodes"@)),
            nodes.map_values(|node: NodeRecord| node.language@),
        ),
        divides(
            (db.buckets)(sql::grouping("kind"@, "nodes"@)),
            nodes.map_values(|node: NodeRecord| node.kind@),
        ),
        divides(
            (db.buckets)(sql::grouping("kind"@, "edges"@)),
            edges.map_values(|edge: EdgeRow| edge.kind@),
        ),
    ensures
        outcome(db, db_path, request) matches Ok(after) ==> {
            &&& divides(
                after.totals.languages,
                nodes.map_values(|node: NodeRecord| node.language@),
            )
            &&& divides(after.totals.node_kinds, nodes.map_values(|node: NodeRecord| node.kind@))
            &&& divides(after.totals.edge_kinds, edges.map_values(|edge: EdgeRow| edge.kind@))
        },
{
    law_summary_counts_each_table(db, db_path, request);
}

/// Which statement a request puts for its nodes: with its limit and query, and with the JSON array of
/// each of its two lists that is not empty.
pub open spec fn nodes_asked(request: GraphRequest) -> sql::Question {
    let languages = option_texts(request.languages);
    let kinds = option_texts(request.kinds);
    sql::nodes_question(
        limit_of(request),
        text_or_empty(request.query),
        if languages.len() == 0 { None } else { Some(sql::json_strings(languages)) },
        if kinds.len() == 0 { None } else { Some(sql::json_strings(kinds)) },
    )
}

/// The answer begins with the nodes that the database sends, each as its row says it.
pub proof fn law_answer_begins_with_the_nodes_sent(
    db: Database,
    db_path: Seq<char>,
    request: GraphRequest,
)
    ensures
        outcome(db, db_path, request) matches Ok(after) ==> {
            let sent = (db.nodes)(nodes_asked(request));
            &&& sent.len() <= after.nodes.len()
            &&& forall|i: int|
                0 <= i < sent.len() ==> rows::shows_row(#[trigger] after.nodes[i], sent[i])
            &&& sent.len() == 0 ==> after.nodes.len() == 0 && after.edges.len() == 0
                && after.files.len() == 0
        },
{
    law_request_is_answered(db, db_path, request);
    let sent = (db.nodes)(nodes_asked(request));
    rows::law_nodes_show_their_rows(sent);
    if outcome(db, db_path, request) is Ok {
        let after = outcome(db, db_path, request)->Ok_0;
        assert(wanted_nodes(db, request) == rows::nodes_of(sent));
        assert forall|i: int| 0 <= i < sent.len() implies rows::shows_row(
            #[trigger] after.nodes[i],
            sent[i],
        ) by {
            assert(after.nodes[i] == rows::nodes_of(sent)[i]);
        }
        if sent.len() == 0 {
            let edges = edges_at(db, wanted_nodes(db, request), limit_of(request));
            assert(endpoints::endpoints(edges).len() == 0);
            edges.lemma_filter_len(endpoints::connects(rows::ids_of(after.nodes)));
        }
    }
}

/// If the database sends only rows that a statement selects, then the nodes that the answer begins
/// with are searched for: each holds the query in a name or in its path, is in one of the languages
/// if the request lists any, and of one of the kinds if it lists any.
pub proof fn law_filters_hold_of_the_nodes_sent(
    db: Database,
    db_path: Seq<char>,
    request: GraphRequest,
    listed: spec_fn(Seq<char>) -> Seq<Seq<char>>,
    index: int,
)
    requires
        listed(sql::json_strings(option_texts(request.languages))) == option_texts(
            request.languages,
        ),
        listed(sql::json_strings(option_texts(request.kinds))) == option_texts(request.kinds),
        0 <= index < (db.nodes)(nodes_asked(request)).len(),
        sql::selects(
            nodes_asked(request).sql.skip(
                "select id, kind, name, qualified_name, file_path, language, start_line, end_line, signature, docstring, visibility, is_exported, is_async, is_static, is_abstract from nodes"@.len() as int,
            ),
            true,
            nodes_asked(request).params,
            listed,
            (db.nodes)(nodes_asked(request))[index],
        ),
    ensures
        outcome(db, db_path, request) matches Ok(after) ==> {
            let node = after.nodes[index];
            let query = text::trimmed(text_or_empty(request.query));
            &&& sql::holds(node.name@, query) || sql::holds(node.qualified_name@, query)
                || sql::holds(node.file_path@, query)
            &&& request.languages matches Some(languages) ==> languages@.len() == 0 || exists|
                i: int,
            |
                0 <= i < languages@.len() && (#[trigger] languages@[i])@ == node.language@
            &&& request.kinds matches Some(kinds) ==> kinds@.len() == 0 || exists|i: int|
                0 <= i < kinds@.len() && (#[trigger] kinds@[i])@ == node.kind@
        },
{
    law_answer_begins_with_the_nodes_sent(db, db_path, request);
    let record = (db.nodes)(nodes_asked(request))[index];
    sql::law_nodes_statement_selects_what_is_searched_for(
        limit_of(request),
        text_or_empty(request.query),
        option_texts(request.languages),
        option_texts(request.kinds),
        listed,
        record,
    );
    if outcome(db, db_path, request) is Ok {
        let node = outcome(db, db_path, request)->Ok_0.nodes[index];
        assert(rows::shows_row(node, record));
        if let Some(languages) = request.languages {
            let views = option_texts(request.languages);
            if languages@.len() > 0 {
                let i = choose|i: int| 0 <= i < views.len() && views[i] == node.language@;
                assert(languages@[i]@ == node.language@);
            }
        }
        if let Some(kinds) = request.kinds {
            let views = option_texts(request.kinds);
            if kinds@.len() > 0 {
                let i = choose|i: int| 0 <= i < views.len() && views[i] == node.kind@;
                assert(kinds@[i]@ == node.kind@);
            }
        }
    }
}

/// The edges that a database sends for some nodes: those of any kind that start or end at one of
/// them, three times as many as nodes may be asked for.
pub open spec fn edges_sent(db: Database, request: GraphRequest) -> Seq<EdgeRow> {
    let nodes = (db.nodes)(nodes_asked(request));
    (db.edges)(
        sql::edges_question(
            sql::json_strings(nodes.map_values(|node: NodeRecord| node.id@)),
            (3 * limit_of(request)) as i64,
        ),
    )
}

/// Of the edges that the database sends, the answer has all that run between two nodes of the
/// answer, whatever their kind, in the order in which they were sent, and no others.
pub proof fn law_all_edges_between_shown_nodes_are_shown(
    db: Database,
    db_path: Seq<char>,
    request: GraphRequest,
)
    requires
        (db.nodes)(nodes_asked(request)).len() > 0,
    ensures
        outcome(db, db_path, request) matches Ok(after) ==> {
            let wanted = (db.nodes)(nodes_asked(request)).map_values(
                |node: NodeRecord| node.id@,
            );
            let sent = (db.edges)(
                sql::edges_question(
                    sql::json_strings(wanted),
                    (3 * limit_of(request)) as i64,
                ),
            );
            let shown = after.nodes.map_values(|node: NodeRow| node.id@);
            &&& forall|edge: EdgeRow| #[trigger]
                after.edges.contains(edge) <==> sent.contains(edge) && shown.contains(edge.source@)
                    && shown.contains(edge.target@)
            &&& after.edges == sent.filter(
                |edge: EdgeRow| shown.contains(edge.source@) && shown.contains(edge.target@),
            )
        },
{
    law_request_is_answered(db, db_path, request);
    let records = (db.nodes)(nodes_asked(request));
    let ids = records.map_values(|node: NodeRecord| node.id@);
    let wanted = wanted_nodes(db, request);
    assert(wanted == rows::nodes_of(records));
    assert(rows::ids_of(wanted) =~= ids);
    let sent = edges_sent(db, request);
    assert(edges_at(db, wanted, limit_of(request)) == sent);
    if outcome(db, db_path, request) is Ok {
        let after = outcome(db, db_path, request)->Ok_0;
        let shown = after.nodes.map_values(|node: NodeRow| node.id@);
        let keep = |edge: EdgeRow| shown.contains(edge.source@) && shown.contains(edge.target@);
        assert(rows::ids_of(after.nodes) =~= shown);
        assert(endpoints::connects(shown) =~= keep);
        assert(after.edges == sent.filter(keep));
        assert forall|edge: EdgeRow| #[trigger]
            after.edges.contains(edge) <==> sent.contains(edge) && shown.contains(edge.source@)
                && shown.contains(edge.target@) by {
            endpoints::law_kept_edges_connect(sent, shown, edge);
        }
    }
}

/// Whether `missing` are the first ends of the edges that the database sends which are not among the
/// nodes that it sends, no more than half of the limit, and `nodes` has behind the nodes sent those
/// that the database sends for these ids.
pub open spec fn adds_other_ends(
    db: Database,
    request: GraphRequest,
    nodes: Seq<NodeRow>,
    missing: Seq<Seq<char>>,
) -> bool {
    let sent = (db.nodes)(nodes_asked(request));
    let added = (db.nodes)(sql::nodes_by_ids_question(sql::json_strings(missing)));
    &&& endpoints::lists_missing(
        missing,
        edges_sent(db, request),
        sent.map_values(|node: NodeRecord| node.id@),
        limit_of(request) / 2,
    )
    &&& missing.len() == 0 ==> nodes.len() == sent.len()
    &&& missing.len() > 0 ==> nodes.len() == sent.len() + added.len() && forall|i: int|
        0 <= i < added.len() ==> rows::shows_row(nodes[sent.len() + i], #[trigger] added[i])
}

/// Behind the nodes that the database sends for the request, the answer has those that it sends for
/// the other ends of the edges: for the first ends that are not among the nodes, half as many as
/// nodes may be asked for. An end that is left out is left out because these are as many.
pub proof fn law_other_ends_of_all_edges_are_asked_for(
    db: Database,
    db_path: Seq<char>,
    request: GraphRequest,
)
    requires
        (db.nodes)(nodes_asked(request)).len() > 0,
    ensures
        outcome(db, db_path, request) matches Ok(after) ==> exists|missing: Seq<Seq<char>>|
            #[trigger] adds_other_ends(db, request, after.nodes, missing),
{
    law_request_is_answered(db, db_path, request);
    let limit = limit_of(request);
    let records = (db.nodes)(nodes_asked(request));
    let ids = records.map_values(|node: NodeRecord| node.id@);
    let wanted = wanted_nodes(db, request);
    assert(wanted == rows::nodes_of(records));
    assert(rows::ids_of(wanted) =~= ids);
    let edges = edges_sent(db, request);
    assert(edges_at(db, wanted, limit) == edges);
    let missing = endpoints::missing_ids(edges, ids, limit / 2);
    let added = (db.nodes)(sql::nodes_by_ids_question(sql::json_strings(missing)));
    endpoints::law_first_unseen_ends_are_missing(edges, ids, limit / 2);
    rows::law_nodes_show_their_rows(added);
    if outcome(db, db_path, request) is Ok {
        let after = outcome(db, db_path, request)->Ok_0;
        assert(after.nodes == wanted + nodes_at(db, missing));
        assert forall|i: int| 0 <= i < added.len() && missing.len() > 0 implies rows::shows_row(
            after.nodes[records.len() + i],
            #[trigger] added[i],
        ) by {
            assert(after.nodes[records.len() + i] == rows::nodes_of(added)[i]);
        }
        assert(adds_other_ends(db, request, after.nodes, missing));
    }
}

/// The files of an answer are those that the database sends for all nodes of the answer.
pub proof fn law_files_are_those_of_all_shown_nodes(
    db: Database,
    db_path: Seq<char>,
    request: GraphRequest,
)
    ensures
        outcome(db, db_path, request) matches Ok(after) ==> after.nodes.len() > 0 ==> after.files
            == (db.files)(
            sql::files_question(
                sql::json_strings(after.nodes.map_values(|node: NodeRow| node.id@)),
            ),
        ),
{
    law_request_is_answered(db, db_path, request);
    if outcome(db, db_path, request) is Ok {
        let after = outcome(db, db_path, request)->Ok_0;
        assert(rows::ids_of(after.nodes) =~= after.nodes.map_values(|node: NodeRow| node.id@));
    }
}

/// Each answer about the size of the database is kept as what was asked: the size of the table that
/// the statement names, or how rows divide by the column that it names. All else that is known of
/// the size stays.
pub proof fn law_answer_is_kept_as_what_was_asked(
    state: GraphState,
    count: i64,
    buckets: Seq<Bucket>,
)
    ensures
        state.step is CountFiles ==> asked(state) == Ask::Count(
            sql::Question { sql: "select count(*) from "@ + "files"@, params: Seq::empty() },
        ),
        state.step is CountFiles ==> next(state, Answer::Count(count)) is Ok && next(
            state,
            Answer::Count(count),
        )->Ok_0.totals == (Totals { file_count: count, ..state.totals }),
        state.step is CountNodes ==> asked(state) == Ask::Count(
            sql::Question { sql: "select count(*) from "@ + "nodes"@, params: Seq::empty() },
        ),
        state.step is CountNodes ==> next(state, Answer::Count(count)) is Ok && next(
            state,
            Answer::Count(count),
        )->Ok_0.totals == (Totals { node_count: count, ..state.totals }),
        state.step is CountEdges ==> asked(state) == Ask::Count(
            sql::Question { sql: "select count(*) from "@ + "edges"@, params: Seq::empty() },
        ),
        state.step is CountEdges ==> next(state, Answer::Count(count)) is Ok && next(
            state,
            Answer::Count(count),
        )->Ok_0.totals == (Totals { edge_count: count, ..state.totals }),
        state.step is CountUnresolved ==> asked(state) == Ask::Count(
            sql::Question { sql: "select count(*) from "@ + "unresolved_refs"@, params: Seq::empty() },
        ),
        state.step is CountUnresolved ==> next(state, Answer::Count(count)) is Ok && next(
            state,
            Answer::Count(count),
        )->Ok_0.totals == (Totals { unresolved_count: count, ..state.totals }),
        state.step is Languages ==> asked(state) == Ask::Buckets(
            sql::grouping("language"@, "nodes"@),
        ),
        state.step is Languages ==> next(state, Answer::Buckets(buckets)) is Ok && next(
            state,
            Answer::Buckets(buckets),
        )->Ok_0.totals == (Totals { languages: buckets, ..state.totals }),
        state.step is NodeKinds ==> asked(state) == Ask::Buckets(
            sql::grouping("kind"@, "nodes"@),
        ),
        state.step is NodeKinds ==> next(state, Answer::Buckets(buckets)) is Ok && next(
            state,
            Answer::Buckets(buckets),
        )->Ok_0.totals == (Totals { node_kinds: buckets, ..state.totals }),
        state.step is EdgeKinds ==> asked(state) == Ask::Buckets(
            sql::grouping("kind"@, "edges"@),
        ),
        state.step is EdgeKinds ==> next(state, Answer::Buckets(buckets)) is Ok && next(
            state,
            Answer::Buckets(buckets),
        )->Ok_0.totals == (Totals { edge_kinds: buckets, ..state.totals }),
{
    sql::law_rows_are_divided_by_columns();
}

/// The nodes that are sent for a request are all taken, as their rows say them.
pub proof fn law_all_nodes_sent_are_taken(state: GraphState, records: Seq<NodeRecord>)
    requires
        state.step is Nodes,
    ensures
        next(state, Answer::Nodes(records)) is Ok,
        ({
            let after = next(state, Answer::Nodes(records))->Ok_0;
            &&& after.nodes.len() == records.len()
            &&& forall|i: int|
                0 <= i < records.len() ==> rows::shows_row(#[trigger] after.nodes[i], records[i])
            &&& records.len() > 0 <==> after.step is Edges
            &&& records.len() == 0 <==> after.step is Done
        }),
{
    rows::law_nodes_show_their_rows(records);
}

/// The edges that are sent are all taken, of whatever kind, and the ends of all of them are looked at:
/// if some are not among the nodes, these are asked for next; if none, the edges between the nodes
/// are the edges of the graph.
pub proof fn law_all_edges_sent_are_taken(state: GraphState, edges: Seq<EdgeRow>)
    requires
        state.step is Edges,
    ensures
        next(state, Answer::Edges(edges)) is Ok,
        ({
            let after = next(state, Answer::Edges(edges))->Ok_0;
            let ids = state.nodes.map_values(|node: NodeRow| node.id@);
            &&& after.nodes == state.nodes
            &&& endpoints::lists_missing(after.missing, edges, ids, state.limit / 2)
            &&& forall|k: int|
                #![trigger edges[k]]
                0 <= k < edges.len() ==> (ids.contains(edges[k].source@)
                    || after.missing.contains(edges[k].source@) || after.missing.len()
                    == state.limit / 2) && (ids.contains(edges[k].target@)
                    || after.missing.contains(edges[k].target@) || after.missing.len()
                    == state.limit / 2)
            &&& after.missing.len() > 0 ==> after.step is Endpoints && after.edges == edges
                && asked(after) == Ask::Nodes(
                sql::nodes_by_ids_question(sql::json_strings(after.missing)),
            )
            &&& after.missing.len() == 0 ==> after.step is Files && forall|edge: EdgeRow| #[trigger]
                after.edges.contains(edge) <==> edges.contains(edge) && ids.contains(edge.source@)
                    && ids.contains(edge.target@)
        }),
{
    let ids = state.nodes.map_values(|node: NodeRow| node.id@);
    assert(rows::ids_of(state.nodes) =~= ids);
    endpoints::law_first_unseen_ends_are_missing(edges, ids, state.limit / 2);
    assert forall|edge: EdgeRow| #[trigger]
        edges.filter(endpoints::connects(ids)).contains(edge) <==> edges.contains(edge)
            && ids.contains(edge.source@) && ids.contains(edge.target@) by {
        endpoints::law_kept_edges_connect(edges, ids, edge);
    }
}

/// The nodes that are sent for the other ends come behind those that were there, as their rows say
/// them, and of the edges, of whatever kind, those between all these nodes are left.
pub proof fn law_all_other_ends_sent_are_taken(state: GraphState, records: Seq<NodeRecord>)
    requires
        state.step is Endpoints,
    ensures
        next(state, Answer::Nodes(records)) is Ok,
        ({
            let after = next(state, Answer::Nodes(records))->Ok_0;
            let ids = after.nodes.map_values(|node: NodeRow| node.id@);
            &&& after.step is Files
            &&& after.nodes.len() == state.nodes.len() + records.len()
            &&& forall|i: int| 0 <= i < state.nodes.len() ==> #[trigger] after.nodes[i]
                == state.nodes[i]
            &&& forall|i: int|
                0 <= i < records.len() ==> rows::shows_row(
                    after.nodes[state.nodes.len() + i],
                    #[trigger] records[i],
                )
            &&& forall|edge: EdgeRow| #[trigger]
                after.edges.contains(edge) <==> state.edges.contains(edge) && ids.contains(
                    edge.source@,
                ) && ids.contains(edge.target@)
        }),
{
    let after = next(state, Answer::Nodes(records))->Ok_0;
    let ids = after.nodes.map_values(|node: NodeRow| node.id@);
    rows::law_nodes_show_their_rows(records);
    assert(rows::ids_of(after.nodes) =~= ids);
    assert forall|i: int| 0 <= i < records.len() implies rows::shows_row(
        after.nodes[state.nodes.len() + i],
        #[trigger] records[i],
    ) by {
        assert(after.nodes[state.nodes.len() + i] == rows::nodes_of(records)[i]);
    }
    assert forall|edge: EdgeRow| #[trigger]
        after.edges.contains(edge) <==> state.edges.contains(edge) && ids.contains(edge.source@)
            && ids.contains(edge.target@) by {
        endpoints::law_kept_edges_connect(state.edges, ids, edge);
    }
}

/// The edges and the files are asked for by the ids of all nodes that are there, and the files that
/// are sent are all taken.
pub proof fn law_edges_and_files_are_asked_for_by_all_nodes(
    state: GraphState,
    files: Seq<FileRow>,
)
    ensures
        state.step is Edges ==> asked(state) == Ask::Edges(
            sql::edges_question(
                sql::json_strings(state.nodes.map_values(|node: NodeRow| node.id@)),
                (3 * state.limit) as i64,
            ),
        ),
        state.step is Files ==> asked(state) == Ask::Files(
            sql::files_question(
                sql::json_strings(state.nodes.map_values(|node: NodeRow| node.id@)),
            ),
        ),
        state.step is Files ==> next(state, Answer::Files(files)) == Ok::<GraphState, Seq<char>>(
            GraphState { step: GraphStep::Done, files, ..state },
        ),
{
    assert(rows::ids_of(state.nodes) =~= state.nodes.map_values(|node: NodeRow| node.id@));
}

} // verus!
