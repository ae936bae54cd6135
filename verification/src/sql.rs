//! The questions that are put to the database.

use vstd::prelude::*;
use vstd::string::*;

use crate::error::AppError;
use crate::rows::NodeRecord;
use crate::text;

verus! {

/// A value that is bound to a placeholder of a statement.
#[derive(Debug, PartialEq, Eq)]
pub enum SqlValue {
    Text(String),
    Integer(i64),
}

/// A statement, with the values for its placeholders in their order.
#[derive(Debug, PartialEq, Eq)]
pub struct Statement {
    pub sql: String,
    pub params: Vec<SqlValue>,
}

/// What a bound value holds.
pub enum Bound {
    Text(Seq<char>),
    Integer(i64),
}

/// What a statement asks.
pub struct Question {
    pub sql: Seq<char>,
    pub params: Seq<Bound>,
}

impl View for SqlValue {
    type V = Bound;

    open spec fn view(&self) -> Bound {
        match self {
            SqlValue::Text(text) => Bound::Text(text@),
            SqlValue::Integer(number) => Bound::Integer(*number),
        }
    }
}

impl View for Statement {
    type V = Question;

    open spec fn view(&self) -> Question {
        Question { sql: self.sql@, params: self.params@.map_values(|value: SqlValue| value@) }
    }
}

/// Asks for a table or view of a name.
pub const TABLE_EXISTS: &'static str = "select count(*) from sqlite_master where type in ('table', 'view') and name = ?1";

/// Asks for the size of a table, of which the name follows.
pub const COUNT_ROWS: &'static str = "select count(*) from ";

/// Asks how the nodes divide by language.
pub const LANGUAGES: &'static str = "select language, count(*) from nodes group by language order by count(*) desc";

/// Asks how the nodes divide by kind.
pub const NODE_KINDS: &'static str = "select kind, count(*) from nodes group by kind order by count(*) desc";

/// Asks how the edges divide by kind.
pub const EDGE_KINDS: &'static str = "select kind, count(*) from edges group by kind order by count(*) desc";

/// Asks for nodes; conditions may follow.
pub const NODES: &'static str = "select id, kind, name, qualified_name, file_path, language, start_line, end_line, signature, docstring, visibility, is_exported, is_async, is_static, is_abstract from nodes";

/// The condition that a node is found by a pattern, in which a backslash takes the next character
/// for itself.
pub const MATCHES_QUERY: &'static str = "(name like ? escape '\\' or qualified_name like ? escape '\\' or file_path like ? escape '\\')";

/// The condition that a node is in one of some languages.
pub const IN_LANGUAGES: &'static str = "language in (select value from json_each(?))";

/// The condition that a node is of one of some kinds.
pub const OF_KINDS: &'static str = "kind in (select value from json_each(?))";

/// The order of the nodes, and how many of them are asked for.
pub const NODES_ORDER: &'static str = " order by case kind when 'file' then 0 when 'class' then 1 when 'interface' then 2 when 'function' then 3 when 'method' then 4 else 5 end, file_path, start_line limit ?";

/// Asks for the nodes with some ids.
pub const NODES_BY_IDS: &'static str = "select id, kind, name, qualified_name, file_path, language, start_line, end_line, signature, docstring, visibility, is_exported, is_async, is_static, is_abstract
         from nodes where id in (select value from json_each(?1))";

/// Asks for the files that hold the nodes with some ids.
pub const FILES: &'static str = "select distinct f.path, f.language, f.size, f.node_count, f.errors
         from files f join nodes n on n.file_path = f.path
         where n.id in (select value from json_each(?1))
         order by f.path";

/// Asks for the edges that start or end at the nodes with some ids.
pub const EDGES: &'static str = "select id, source, target, kind, metadata, line, col, provenance
         from edges
         where source in (select value from json_each(?1)) or target in (select value from json_each(?1))
         order by case kind when 'contains' then 0 when 'calls' then 1 when 'imports' then 2 else 3 end
         limit ?2";

/// The JSON array of some strings.
pub uninterp spec fn json_strings(values: Seq<Seq<char>>) -> Seq<char>;

/// Calls `serde_json::to_string` on a list of strings. The contract claims that the call succeeds,
/// since it can only fail on a value that refuses to be serialised or on a map with keys other
/// than strings, and that the text follows from the strings alone.
#[verifier::external_body]
fn to_json(values: &Vec<String>) -> (result: Result<String, serde_json::Error>)
    ensures
        result is Ok,
        result->Ok_0@ == json_strings(text::texts(values@)),
{
    serde_json::to_string(values)
}

/// Writes a list of strings as a JSON array.
pub fn json_array(values: &Vec<String>) -> (result: Result<String, AppError>)
    ensures
        result is Ok,
        result->Ok_0@ == json_strings(text::texts(values@)),
{
    match to_json(values) {
        Ok(array) => Ok(array),
        Err(error) => Err(AppError::from(error)),
    }
}

/// The statement without values.
pub open spec fn plain(sql: Seq<char>) -> Question {
    Question { sql, params: Seq::empty() }
}

/// The statement whether a table or view exists.
pub open spec fn table_question(table: Seq<char>) -> Question {
    Question { sql: TABLE_EXISTS@, params: seq![Bound::Text(table)] }
}

/// Asks how many tables and views of a name there are.
pub fn table_exists(table: &str) -> (statement: Statement)
    ensures
        statement@ == table_question(table@),
{
    let mut params: Vec<SqlValue> = Vec::new();
    params.push(SqlValue::Text(table.to_owned()));
    let statement = Statement { sql: TABLE_EXISTS.to_owned(), params };
    assert(statement@.params =~= seq![Bound::Text(table@)]);
    statement
}

/// Asks for the size of a table.
pub fn count(table: &str) -> (statement: Statement)
    ensures
        statement@ == plain(COUNT_ROWS@ + table@),
{
    let statement = Statement { sql: COUNT_ROWS.to_owned().concat(table), params: Vec::new() };
    assert(statement@.params =~= Seq::empty());
    statement
}

/// The statement for the size of a table that may be missing, of which as many as `found` were
/// found: there is nothing to ask about a missing one.
pub open spec fn optional_question(table: Seq<char>, found: i64) -> Option<Question> {
    if found == 0 {
        None
    } else {
        Some(plain(COUNT_ROWS@ + table))
    }
}

/// Asks for the size of a table that may be missing. A missing one has no rows.
pub fn optional_count(table: &str, found: i64) -> (statement: Option<Statement>)
    ensures
        statement is Some <==> optional_question(table@, found) is Some,
        statement matches Some(statement) ==> statement@ == optional_question(table@, found)->0,
{
    if found == 0 {
        None
    } else {
        Some(count(table))
    }
}

/// Asks how rows divide, by a statement without values.
pub fn buckets(sql: &str) -> (statement: Statement)
    ensures
        statement@ == plain(sql@),
{
    let statement = Statement { sql: sql.to_owned(), params: Vec::new() };
    assert(statement@.params =~= Seq::empty());
    statement
}

/// `value` with a backslash in front of the characters that a pattern gives a meaning to: the two
/// wildcards, and the backslash itself.
pub open spec fn escaped(value: Seq<char>) -> Seq<char> {
    text::replaced(
        text::replaced(text::replaced(value, '\\', "\\\\"@), '%', "\\%"@),
        '_',
        "\\_"@,
    )
}

/// Puts a backslash in front of the characters that a pattern gives a meaning to.
pub fn escape_like(value: &str) -> (result: String)
    ensures
        result@ == escaped(value@),
{
    let first = text::replace_char(value, '\\', "\\\\");
    let second = text::replace_char(first.as_str(), '%', "\\%");
    text::replace_char(second.as_str(), '_', "\\_")
}

/// The pattern that finds a text anywhere.
pub open spec fn pattern(query: Seq<char>) -> Seq<char> {
    "%"@ + escaped(text::trimmed(query)) + "%"@
}

/// The conditions on the nodes that are asked for.
pub open spec fn node_conditions(by_query: bool, by_language: bool, by_kind: bool) -> Seq<
    Seq<char>,
> {
    let query = if by_query { seq![MATCHES_QUERY@] } else { seq![] };
    let languages = if by_language { seq![IN_LANGUAGES@] } else { seq![] };
    let kinds = if by_kind { seq![OF_KINDS@] } else { seq![] };
    query + languages + kinds
}

/// The text of a statement with some conditions.
pub open spec fn nodes_sql(conditions: Seq<Seq<char>>) -> Seq<char> {
    if conditions.len() == 0 {
        NODES@ + NODES_ORDER@
    } else {
        NODES@ + " where "@ + text::joined(conditions, " and "@) + NODES_ORDER@
    }
}

/// The values of the statement for nodes.
pub open spec fn node_params(
    limit: nat,
    query: Seq<char>,
    languages: Option<Seq<char>>,
    kinds: Option<Seq<char>>,
) -> Seq<Bound> {
    let found = if text::trimmed(query).len() > 0 {
        seq![
            Bound::Text(pattern(query)),
            Bound::Text(pattern(query)),
            Bound::Text(pattern(query)),
        ]
    } else {
        seq![]
    };
    let in_languages = match languages {
        Some(array) => seq![Bound::Text(array)],
        None => seq![],
    };
    let of_kinds = match kinds {
        Some(array) => seq![Bound::Text(array)],
        None => seq![],
    };
    found + in_languages + of_kinds + seq![Bound::Text(text::decimal(limit))]
}

/// The statement for the first `limit` nodes that a query finds, in some languages and of some
/// kinds; the two lists are JSON arrays, and a missing one sets no condition.
pub open spec fn nodes_question(
    limit: nat,
    query: Seq<char>,
    languages: Option<Seq<char>>,
    kinds: Option<Seq<char>>,
) -> Question {
    Question {
        sql: nodes_sql(
            node_conditions(text::trimmed(query).len() > 0, languages is Some, kinds is Some),
        ),
        params: node_params(limit, query, languages, kinds),
    }
}

/// The JSON array of a list, unless the list is empty.
pub open spec fn json_filter(values: Seq<Seq<char>>) -> Option<Seq<char>> {
    if values.len() == 0 {
        None
    } else {
        Some(json_strings(values))
    }
}

/// Asks for nodes, with the lists of languages and of kinds written as JSON arrays.
pub fn nodes_statement(
    limit: usize,
    query: &str,
    languages: Option<String>,
    kinds: Option<String>,
) -> (statement: Statement)
    ensures
        statement@ == nodes_question(
            limit as nat,
            query@,
            text::option_text(languages),
            text::option_text(kinds),
        ),
{
    let mut sql = NODES.to_owned();
    let mut clauses: Vec<&str> = Vec::new();
    let mut values: Vec<SqlValue> = Vec::new();
    let wanted = query.trim();
    if !wanted.is_empty() {
        clauses.push(MATCHES_QUERY);
        let value = "%".to_owned().concat(escape_like(wanted).as_str()).concat("%");
        values.push(SqlValue::Text(value.clone()));
        values.push(SqlValue::Text(value.clone()));
        values.push(SqlValue::Text(value));
    }
    let ghost by_query = text::trimmed(query@).len() > 0;
    let ghost by_language = languages is Some;
    let ghost by_kind = kinds is Some;
    let ghost in_languages = text::option_text(languages);
    let ghost of_kinds = text::option_text(kinds);
    if let Some(array) = languages {
        clauses.push(IN_LANGUAGES);
        values.push(SqlValue::Text(array));
    }
    if let Some(array) = kinds {
        clauses.push(OF_KINDS);
        values.push(SqlValue::Text(array));
    }
    let ghost conditions = node_conditions(by_query, by_language, by_kind);
    assert(clauses@.map_values(|part: &str| part@) =~= conditions);
    if clauses.len() > 0 {
        sql.append(" where ");
        sql.append(text::join(&clauses, " and ").as_str());
    }
    sql.append(NODES_ORDER);
    values.push(SqlValue::Text(text::decimal_text(limit)));
    assert(values@.map_values(|value: SqlValue| value@) =~= node_params(
        limit as nat,
        query@,
        in_languages,
        of_kinds,
    ));
    Statement { sql, params: values }
}

/// Writes a list as a JSON array, unless the list is empty.
pub fn json_filter_array(values: &Vec<String>) -> (result: Result<Option<String>, AppError>)
    ensures
        result is Ok,
        text::option_text(result->Ok_0) == json_filter(text::texts(values@)),
{
    if values.len() == 0 {
        return Ok(None);
    }
    match json_array(values) {
        Ok(array) => Ok(Some(array)),
        Err(error) => Err(error),
    }
}

/// Asks for the first `limit` nodes that a query finds, in some languages and of some kinds; a
/// blank query and an empty list set no condition.
pub fn load_nodes(
    limit: usize,
    query: &str,
    languages: &Vec<String>,
    kinds: &Vec<String>,
) -> (result: Result<Statement, AppError>)
    ensures
        result is Ok,
        result->Ok_0@ == nodes_question(
            limit as nat,
            query@,
            json_filter(text::texts(languages@)),
            json_filter(text::texts(kinds@)),
        ),
{
    let in_languages = match json_filter_array(languages) {
        Ok(array) => array,
        Err(error) => {
            return Err(error);
        },
    };
    let of_kinds = match json_filter_array(kinds) {
        Ok(array) => array,
        Err(error) => {
            return Err(error);
        },
    };
    Ok(nodes_statement(limit, query, in_languages, of_kinds))
}

/// The statement for the nodes with some ids, which are written as a JSON array.
pub open spec fn nodes_by_ids_question(ids: Seq<char>) -> Question {
    Question { sql: NODES_BY_IDS@, params: seq![Bound::Text(ids)] }
}

/// The statement for the files of the nodes with some ids, which are written as a JSON array.
pub open spec fn files_question(ids: Seq<char>) -> Question {
    Question { sql: FILES@, params: seq![Bound::Text(ids)] }
}

/// The statement for the first `limit` edges of the nodes with some ids, which are written as a
/// JSON array.
pub open spec fn edges_question(ids: Seq<char>, limit: i64) -> Question {
    Question { sql: EDGES@, params: seq![Bound::Text(ids), Bound::Integer(limit)] }
}

/// Makes a statement about the nodes with some ids, which are written as a JSON array.
pub fn ids_statement(sql: &str, ids: String) -> (statement: Statement)
    ensures
        statement@ == (Question { sql: sql@, params: seq![Bound::Text(ids@)] }),
{
    let mut params: Vec<SqlValue> = Vec::new();
    params.push(SqlValue::Text(ids));
    let statement = Statement { sql: sql.to_owned(), params };
    assert(statement@.params =~= seq![Bound::Text(ids@)]);
    statement
}

/// Asks for the nodes with some ids. Without ids there is nothing to ask.
pub fn load_nodes_by_ids(node_ids: &Vec<String>) -> (result: Result<Option<Statement>, AppError>)
    ensures
        result is Ok,
        result->Ok_0 is None <==> node_ids@.len() == 0,
        result->Ok_0 matches Some(statement) ==> statement@ == nodes_by_ids_question(
            json_strings(text::texts(node_ids@)),
        ),
{
    match json_filter_array(node_ids) {
        Ok(Some(ids)) => Ok(Some(ids_statement(NODES_BY_IDS, ids))),
        Ok(None) => Ok(None),
        Err(error) => Err(error),
    }
}

/// Asks for the files that hold the nodes with some ids. Without ids there is nothing to ask.
pub fn load_files(node_ids: &Vec<String>) -> (result: Result<Option<Statement>, AppError>)
    ensures
        result is Ok,
        result->Ok_0 is None <==> node_ids@.len() == 0,
        result->Ok_0 matches Some(statement) ==> statement@ == files_question(
            json_strings(text::texts(node_ids@)),
        ),
{
    match json_filter_array(node_ids) {
        Ok(Some(ids)) => Ok(Some(ids_statement(FILES, ids))),
        Ok(None) => Ok(None),
        Err(error) => Err(error),
    }
}

/// Makes the statement for the first `limit` edges of the nodes with some ids, which are written
/// as a JSON array.
pub fn edges_statement(ids: String, limit: usize) -> (statement: Statement)
    ensures
        statement@ == edges_question(ids@, limit as i64),
{
    let mut params: Vec<SqlValue> = Vec::new();
    params.push(SqlValue::Text(ids));
    params.push(SqlValue::Integer(limit as i64));
    let statement = Statement { sql: EDGES.to_owned(), params };
    assert(statement@.params =~= edges_question(ids@, limit as i64).params);
    statement
}

/// Asks for the first `limit` edges that start or end at the nodes with some ids. Without ids there
/// is nothing to ask.
pub fn load_edges(node_ids: &Vec<String>, limit: usize) -> (result: Result<
    Option<Statement>,
    AppError,
>)
    ensures
        result is Ok,
        result->Ok_0 is None <==> node_ids@.len() == 0,
        result->Ok_0 matches Some(statement) ==> statement@ == edges_question(
            json_strings(text::texts(node_ids@)),
            limit as i64,
        ),
{
    match json_filter_array(node_ids) {
        Ok(Some(ids)) => Ok(Some(edges_statement(ids, limit))),
        Ok(None) => Ok(None),
        Err(error) => Err(error),
    }
}

/// A character without regard to case, which counts for the letters of ASCII alone.
pub open spec fn folded(c: char) -> char {
    if 'A' <= c <= 'Z' {
        (c as int + 32) as char
    } else {
        c
    }
}

/// Whether a text matches a pattern, as `like` with the escape character `\` understands it: `%`
/// stands for any characters, `_` for one character, and a character behind a backslash for itself.
/// Texts with a NUL, at which the database stops reading, are another matter.
pub open spec fn like_matches(pattern: Seq<char>, value: Seq<char>) -> bool
    decreases pattern.len(), value.len(),
{
    if pattern.len() == 0 {
        value.len() == 0
    } else if pattern[0] == '%' {
        ||| like_matches(pattern.skip(1), value)
        ||| value.len() > 0 && like_matches(pattern, value.skip(1))
    } else if pattern[0] == '_' {
        value.len() > 0 && like_matches(pattern.skip(1), value.skip(1))
    } else if pattern[0] == '\\' {
        &&& pattern.len() > 1
        &&& value.len() > 0
        &&& folded(pattern[1]) == folded(value[0])
        &&& like_matches(pattern.skip(2), value.skip(1))
    } else {
        &&& value.len() > 0
        &&& folded(pattern[0]) == folded(value[0])
        &&& like_matches(pattern.skip(1), value.skip(1))
    }
}

/// Whether `part` stands in `value` at `index`, without regard to the case of ASCII letters.
pub open spec fn stands_at(part: Seq<char>, value: Seq<char>, index: int) -> bool {
    &&& 0 <= index
    &&& index + part.len() <= value.len()
    &&& forall|k: int|
        #![trigger part[k]]
        0 <= k < part.len() ==> folded(part[k]) == folded(value[index + k])
}

/// Whether `part` stands somewhere in `value`, without regard to the case of ASCII letters.
pub open spec fn holds(value: Seq<char>, part: Seq<char>) -> bool {
    exists|index: int| stands_at(part, value, index)
}

/// What becomes of one character of a search text.
spec fn guarded(c: char) -> Seq<char> {
    if c == '%' || c == '_' || c == '\\' {
        seq!['\\', c]
    } else {
        seq![c]
    }
}

/// A search text with every character guarded.
spec fn guarded_text(value: Seq<char>) -> Seq<char>
    decreases value.len(),
{
    if value.len() == 0 {
        seq![]
    } else {
        guarded_text(value.drop_last()) + guarded(value.last())
    }
}

/// What replacing makes of one more character.
proof fn lemma_replaced_push(value: Seq<char>, c: char, from: char, to: Seq<char>)
    ensures
        text::replaced(value.push(c), from, to) == if c == from {
            text::replaced(value, from, to) + to
        } else {
            text::replaced(value, from, to).push(c)
        },
{
    assert(value.push(c).drop_last() =~= value);
}

/// Escaping goes character by character.
proof fn lemma_escaped(value: Seq<char>)
    ensures
        escaped(value) == guarded_text(value),
    decreases value.len(),
{
    reveal_strlit("\\\\");
    reveal_strlit("\\%");
    reveal_strlit("\\_");
    if value.len() > 0 {
        let c = value.last();
        let start = value.drop_last();
        lemma_escaped(start);
        let first = text::replaced(start, '\\', "\\\\"@);
        let second = text::replaced(first, '%', "\\%"@);
        let third = text::replaced(second, '_', "\\_"@);
        if c == '\\' {
            assert(first + "\\\\"@ =~= first.push('\\').push('\\'));
            lemma_replaced_push(first, '\\', '%', "\\%"@);
            lemma_replaced_push(first.push('\\'), '\\', '%', "\\%"@);
            lemma_replaced_push(second, '\\', '_', "\\_"@);
            lemma_replaced_push(second.push('\\'), '\\', '_', "\\_"@);
        } else if c == '%' {
            lemma_replaced_push(first, '%', '%', "\\%"@);
            assert(second + "\\%"@ =~= second.push('\\').push('%'));
            lemma_replaced_push(second, '\\', '_', "\\_"@);
            lemma_replaced_push(second.push('\\'), '%', '_', "\\_"@);
        } else {
            lemma_replaced_push(first, c, '%', "\\%"@);
            lemma_replaced_push(second, c, '_', "\\_"@);
        }
        assert(escaped(value) =~= third + guarded(c));
    }
}

/// The first character is guarded first.
proof fn lemma_guarded_first(value: Seq<char>)
    requires
        value.len() > 0,
    ensures
        guarded_text(value) == guarded(value[0]) + guarded_text(value.skip(1)),
    decreases value.len(),
{
    if value.len() == 1 {
        let none = Seq::<char>::empty();
        assert(value.drop_last() =~= none);
        assert(value.skip(1) =~= none);
        assert(value.last() == value[0]);
        assert(guarded_text(none).len() == 0);
        assert(guarded_text(value) == guarded_text(none) + guarded(value[0]));
        assert(guarded_text(none) + guarded(value[0]) =~= guarded(value[0]) + guarded_text(none));
    } else {
        lemma_guarded_first(value.drop_last());
        assert(value.drop_last().skip(1) =~= value.skip(1).drop_last());
        assert(guarded_text(value) =~= guarded(value[0]) + guarded_text(value.skip(1)));
    }
}

/// A guarded text at the start of a pattern stands for itself.
proof fn lemma_guarded_matches(part: Seq<char>, rest: Seq<char>, value: Seq<char>)
    ensures
        like_matches(guarded_text(part) + rest, value) <==> stands_at(part, value, 0)
            && like_matches(rest, value.skip(part.len() as int)),
    decreases part.len(),
{
    if part.len() == 0 {
        assert(guarded_text(part) + rest =~= rest);
        assert(value.skip(0) =~= value);
    } else {
        let c = part[0];
        let whole = guarded_text(part) + rest;
        let after = guarded_text(part.skip(1)) + rest;
        lemma_guarded_first(part);
        if guarded(c).len() == 2 {
            assert(whole[0] == '\\' && whole[1] == c);
            assert(whole.skip(2) =~= after);
        } else {
            assert(whole[0] == c);
            assert(whole.skip(1) =~= after);
        }
        assert(like_matches(whole, value) <==> value.len() > 0 && folded(c) == folded(value[0])
            && like_matches(after, value.skip(1)));
        if value.len() > 0 {
            lemma_guarded_matches(part.skip(1), rest, value.skip(1));
            if part.len() <= value.len() {
                assert(value.skip(1).skip(part.len() - 1) =~= value.skip(part.len() as int));
            }
            if folded(c) == folded(value[0]) && stands_at(part.skip(1), value.skip(1), 0) {
                assert forall|k: int| #![trigger part[k]] 0 <= k < part.len() implies folded(part[k])
                    == folded(value[0 + k]) by {
                    if k > 0 {
                        assert(part.skip(1)[k - 1] == part[k]);
                    }
                }
            }
            if stands_at(part, value, 0) {
                assert(folded(part[0]) == folded(value[0]));
                assert forall|k: int|
                    #![trigger part.skip(1)[k]]
                    0 <= k < part.len() - 1 implies folded(part.skip(1)[k]) == folded(
                    value.skip(1)[0 + k],
                ) by {
                    assert(part.skip(1)[k] == part[k + 1]);
                }
            }
        }
    }
}

/// The pattern `%` matches any text.
proof fn lemma_any_matches(value: Seq<char>)
    ensures
        like_matches(seq!['%'], value),
    decreases value.len(),
{
    reveal_with_fuel(like_matches, 2);
    if value.len() > 0 {
        lemma_any_matches(value.skip(1));
    }
}

/// A guarded text between two `%` is found wherever it stands.
proof fn lemma_guarded_is_found(part: Seq<char>, value: Seq<char>)
    ensures
        like_matches(seq!['%'] + (guarded_text(part) + seq!['%']), value) <==> holds(value, part),
    decreases value.len(),
{
    let rest = guarded_text(part) + seq!['%'];
    let whole = seq!['%'] + rest;
    assert(whole[0] == '%');
    assert(whole.skip(1) =~= rest);
    lemma_guarded_matches(part, seq!['%'], value);
    lemma_any_matches(value.skip(part.len() as int));
    assert(like_matches(rest, value) <==> stands_at(part, value, 0));
    if value.len() > 0 {
        let shorter = value.skip(1);
        lemma_guarded_is_found(part, shorter);
        if holds(shorter, part) {
            let index = choose|index: int| stands_at(part, shorter, index);
            assert(stands_at(part, value, index + 1));
        }
        if holds(value, part) && !stands_at(part, value, 0) {
            let index = choose|index: int| stands_at(part, value, index);
            assert(stands_at(part, shorter, index - 1));
        }
    }
}

/// The pattern of a query matches the texts in which the query stands, and no others: a wildcard or
/// a backslash in the query is searched for as it is. The case of ASCII letters does not count.
pub proof fn law_search_finds_what_holds_the_query(query: Seq<char>, value: Seq<char>)
    ensures
        like_matches(pattern(query), value) <==> holds(value, text::trimmed(query)),
{
    let wanted = text::trimmed(query);
    reveal_strlit("%");
    lemma_escaped(wanted);
    lemma_guarded_is_found(wanted, value);
    assert("%"@ =~= seq!['%']);
    assert(pattern(query) =~= seq!['%'] + (guarded_text(wanted) + seq!['%']));
}

/// An escaped text, taken as a pattern, matches the text itself, and no other but for the case of
/// ASCII letters.
pub proof fn law_escaped_text_matches_itself(part: Seq<char>, value: Seq<char>)
    ensures
        like_matches(escaped(part), value) <==> part.len() == value.len() && stands_at(
            part,
            value,
            0,
        ),
{
    lemma_escaped(part);
    lemma_guarded_matches(part, Seq::empty(), value);
    assert(guarded_text(part) + Seq::empty() =~= guarded_text(part));
}

proof fn lemma_guarded_text_apart(left: Seq<char>, right: Seq<char>)
    requires
        guarded_text(left) == guarded_text(right),
    ensures
        left == right,
    decreases left.len(),
{
    if left.len() > 0 && right.len() > 0 {
        let whole = guarded_text(left);
        assert(left[0] == right[0]) by {
            lemma_guarded_first(left);
            lemma_guarded_first(right);
            assert(whole[0] == guarded(left[0])[0] && whole[0] == guarded(right[0])[0]);
            if whole[0] == '\\' {
                assert(whole[1] == left[0] && whole[1] == right[0]);
            }
        }
        assert(guarded_text(left.skip(1)) =~= guarded_text(right.skip(1))) by {
            lemma_guarded_first(left);
            lemma_guarded_first(right);
            let size = guarded(left[0]).len() as int;
            assert(guarded_text(left.skip(1)) =~= whole.skip(size));
            assert(guarded_text(right.skip(1)) =~= whole.skip(size));
        }
        lemma_guarded_text_apart(left.skip(1), right.skip(1));
        assert(left =~= seq![left[0]] + left.skip(1));
        assert(right =~= seq![right[0]] + right.skip(1));
    } else if left.len() > 0 {
        assert(guarded_text(left).len() > 0);
    } else if right.len() > 0 {
        assert(guarded_text(right).len() > 0);
    } else {
        assert(left =~= right);
    }
}

/// Two search texts are never escaped to one and the same.
pub proof fn law_escaping_keeps_texts_apart(left: Seq<char>, right: Seq<char>)
    requires
        escaped(left) == escaped(right),
    ensures
        left == right,
{
    lemma_escaped(left);
    lemma_escaped(right);
    lemma_guarded_text_apart(left, right);
}

proof fn lemma_plain_text(value: Seq<char>)
    requires
        forall|i: int|
            0 <= i < value.len() ==> value[i] != '%' && value[i] != '_' && value[i] != '\\',
    ensures
        guarded_text(value) == value,
    decreases value.len(),
{
    if value.len() > 0 {
        lemma_plain_text(value.drop_last());
        assert(value.drop_last() + seq![value.last()] =~= value);
    }
}

/// A text without characters that a pattern gives a meaning to stays as it is.
pub proof fn law_plain_text_is_not_escaped(value: Seq<char>)
    requires
        !value.contains('%'),
        !value.contains('_'),
        !value.contains('\\'),
    ensures
        escaped(value) == value,
{
    lemma_escaped(value);
    lemma_plain_text(value);
}

/// Whether the statement for nodes asks for a row: the pattern of the query matches one of its three
/// names, and its language and its kind are in the lists. A blank query and an empty list set no
/// condition.
pub open spec fn asks_for(
    query: Seq<char>,
    languages: Seq<Seq<char>>,
    kinds: Seq<Seq<char>>,
    record: NodeRecord,
) -> bool {
    &&& text::trimmed(query).len() > 0 ==> {
        ||| like_matches(pattern(query), record.name@)
        ||| like_matches(pattern(query), record.qualified_name@)
        ||| like_matches(pattern(query), record.file_path@)
    }
    &&& languages.len() > 0 ==> languages.contains(record.language@)
    &&& kinds.len() > 0 ==> kinds.contains(record.kind@)
}

/// The statement for nodes asks for the rows of which a name, or the path, holds the query, in the
/// languages and of the kinds that are listed.
pub proof fn law_nodes_are_asked_for_by_name_and_path(
    query: Seq<char>,
    languages: Seq<Seq<char>>,
    kinds: Seq<Seq<char>>,
    record: NodeRecord,
)
    ensures
        asks_for(query, languages, kinds, record) <==> {
            let wanted = text::trimmed(query);
            &&& holds(record.name@, wanted) || holds(record.qualified_name@, wanted) || holds(
                record.file_path@,
                wanted,
            )
            &&& languages.len() == 0 || languages.contains(record.language@)
            &&& kinds.len() == 0 || kinds.contains(record.kind@)
        },
{
    law_search_finds_what_holds_the_query(query, record.name@);
    law_search_finds_what_holds_the_query(query, record.qualified_name@);
    law_search_finds_what_holds_the_query(query, record.file_path@);
    if text::trimmed(query).len() == 0 {
        assert(stands_at(text::trimmed(query), record.name@, 0));
    }
}

/// How many values a statement takes, if each placeholder takes the next one.
pub open spec fn placeholders(sql: Seq<char>) -> nat
    decreases sql.len(),
{
    if sql.len() == 0 {
        0
    } else {
        placeholders(sql.drop_last()) + if sql.last() == '?' {
            1nat
        } else {
            0nat
        }
    }
}

proof fn lemma_placeholders_add(left: Seq<char>, right: Seq<char>)
    ensures
        placeholders(left + right) == placeholders(left) + placeholders(right),
    decreases right.len(),
{
    if right.len() == 0 {
        assert(left + right =~= left);
    } else {
        assert((left + right).drop_last() =~= left + right.drop_last());
        lemma_placeholders_add(left, right.drop_last());
    }
}

proof fn lemma_placeholders_none(sql: Seq<char>)
    requires
        forall|i: int| 0 <= i < sql.len() ==> sql[i] != '?',
    ensures
        placeholders(sql) == 0,
    decreases sql.len(),
{
    if sql.len() > 0 {
        lemma_placeholders_none(sql.drop_last());
    }
}

proof fn lemma_placeholders_at(sql: Seq<char>, index: int)
    requires
        0 <= index < sql.len(),
        sql[index] == '?',
    ensures
        placeholders(sql) == placeholders(sql.take(index)) + 1 + placeholders(sql.skip(index + 1)),
{
    let head = sql.take(index + 1);
    assert(head.drop_last() =~= sql.take(index));
    assert(head + sql.skip(index + 1) =~= sql);
    lemma_placeholders_add(head, sql.skip(index + 1));
}

proof fn lemma_placeholders_of_parts()
    ensures
        placeholders(NODES@) == 0,
        placeholders(" where "@) == 0,
        placeholders(" and "@) == 0,
        placeholders(MATCHES_QUERY@) == 3,
        placeholders(IN_LANGUAGES@) == 1,
        placeholders(OF_KINDS@) == 1,
        placeholders(NODES_ORDER@) == 1,
{
    reveal_strlit("select id, kind, name, qualified_name, file_path, language, start_line, end_line, signature, docstring, visibility, is_exported, is_async, is_static, is_abstract from nodes");
    lemma_placeholders_none(NODES@);
    reveal_strlit(" where ");
    lemma_placeholders_none(" where "@);
    reveal_strlit(" and ");
    lemma_placeholders_none(" and "@);
    reveal_strlit("(name like ? escape '\\' or qualified_name like ? escape '\\' or file_path like ? escape '\\')");
    let query = MATCHES_QUERY@;
    lemma_placeholders_at(query, 11);
    lemma_placeholders_none(query.take(11));
    let rest = query.skip(12);
    lemma_placeholders_at(rest, 35);
    lemma_placeholders_none(rest.take(35));
    let rest = rest.skip(36);
    lemma_placeholders_at(rest, 30);
    lemma_placeholders_none(rest.take(30));
    lemma_placeholders_none(rest.skip(31));
    reveal_strlit("language in (select value from json_each(?))");
    lemma_placeholders_at(IN_LANGUAGES@, 41);
    lemma_placeholders_none(IN_LANGUAGES@.take(41));
    lemma_placeholders_none(IN_LANGUAGES@.skip(42));
    reveal_strlit("kind in (select value from json_each(?))");
    lemma_placeholders_at(OF_KINDS@, 37);
    lemma_placeholders_none(OF_KINDS@.take(37));
    lemma_placeholders_none(OF_KINDS@.skip(38));
    reveal_strlit(" order by case kind when 'file' then 0 when 'class' then 1 when 'interface' then 2 when 'function' then 3 when 'method' then 4 else 5 end, file_path, start_line limit ?");
    lemma_placeholders_at(NODES_ORDER@, 167);
    lemma_placeholders_none(NODES_ORDER@.take(167));
    lemma_placeholders_none(NODES_ORDER@.skip(168));
}

/// The statement for nodes has a value for each of its placeholders, and no more.
pub proof fn law_placeholders_have_values(
    limit: nat,
    query: Seq<char>,
    languages: Option<Seq<char>>,
    kinds: Option<Seq<char>>,
)
    ensures
        placeholders(nodes_question(limit, query, languages, kinds).sql) == nodes_question(
            limit,
            query,
            languages,
            kinds,
        ).params.len(),
{
    lemma_placeholders_of_parts();
    let conditions = node_conditions(
        text::trimmed(query).len() > 0,
        languages is Some,
        kinds is Some,
    );
    if conditions.len() == 0 {
        lemma_placeholders_add(NODES@, NODES_ORDER@);
    } else {
        let joined = text::joined(conditions, " and "@);
        lemma_placeholders_joined(conditions);
        lemma_placeholders_add(NODES@, " where "@);
        lemma_placeholders_add(NODES@ + " where "@, joined);
        lemma_placeholders_add(NODES@ + " where "@ + joined, NODES_ORDER@);
        reveal_with_fuel(placeholders_of_all, 4);
    }
}

/// How many values some conditions take together.
spec fn placeholders_of_all(parts: Seq<Seq<char>>) -> nat
    decreases parts.len(),
{
    if parts.len() == 0 {
        0
    } else {
        placeholders_of_all(parts.drop_last()) + placeholders(parts.last())
    }
}

proof fn lemma_placeholders_joined(parts: Seq<Seq<char>>)
    ensures
        placeholders(text::joined(parts, " and "@)) == placeholders_of_all(parts),
    decreases parts.len(),
{
    lemma_placeholders_of_parts();
    if parts.len() == 1 {
        reveal_with_fuel(placeholders_of_all, 2);
    } else if parts.len() > 1 {
        let before = text::joined(parts.drop_last(), " and "@);
        lemma_placeholders_joined(parts.drop_last());
        lemma_placeholders_add(before, " and "@);
        lemma_placeholders_add(before + " and "@, parts.last());
    }
}

/// Blanks around a query make no difference.
pub proof fn law_blanks_around_query_make_no_difference(
    limit: nat,
    query: Seq<char>,
    languages: Option<Seq<char>>,
    kinds: Option<Seq<char>>,
)
    ensures
        nodes_question(limit, query, languages, kinds) == nodes_question(
            limit,
            text::trimmed(query),
            languages,
            kinds,
        ),
{
    text::lemma_trimmed_once(query);
}

/// A statement is put to the database as it stands: its text, and its values one by one.
pub proof fn law_statement_is_put_as_it_stands(statement: Statement)
    ensures
        statement@.sql == statement.sql@,
        statement@.params.len() == statement.params@.len(),
        forall|i: int|
            #![trigger statement.params@[i]]
            0 <= i < statement.params@.len() ==> match statement.params@[i] {
                SqlValue::Text(value) => statement@.params[i] == Bound::Text(value@),
                SqlValue::Integer(number) => statement@.params[i] == Bound::Integer(number),
            },
{
}

/// A statement without values is put as its text says.
pub proof fn law_plain_statement_has_no_values(sql: Seq<char>)
    ensures
        plain(sql).sql == sql,
        plain(sql).params == Seq::<Bound>::empty(),
{
}

/// The statements about one table look it up by its name, and count its rows unless it is missing.
pub proof fn law_tables_are_looked_up_and_counted(table: Seq<char>, found: i64)
    ensures
        table_question(table).sql
            == "select count(*) from sqlite_master where type in ('table', 'view') and name = ?1"@,
        table_question(table).params == seq![Bound::Text(table)],
        plain(COUNT_ROWS@ + table).sql == "select count(*) from "@ + table,
        plain(COUNT_ROWS@ + table).params.len() == 0,
        found == 0 ==> optional_question(table, found) is None,
        found != 0 ==> optional_question(table, found) == Some(
            Question { sql: "select count(*) from "@ + table, params: Seq::empty() },
        ),
{
}

/// The statement that divides the rows of a table by a column, the largest share first.
pub open spec fn grouping(column: Seq<char>, table: Seq<char>) -> Question {
    Question {
        sql: "select "@ + column + ", count(*) from "@ + table + " group by "@ + column
            + " order by count(*) desc"@,
        params: Seq::empty(),
    }
}

/// Languages and kinds are columns of the nodes, and kinds of the edges too; the statements divide
/// the rows by these columns.
pub proof fn law_rows_are_divided_by_columns()
    ensures
        plain(LANGUAGES@) == grouping("language"@, "nodes"@),
        plain(NODE_KINDS@) == grouping("kind"@, "nodes"@),
        plain(EDGE_KINDS@) == grouping("kind"@, "edges"@),
{
    reveal_strlit("select ");
    reveal_strlit(", count(*) from ");
    reveal_strlit(" group by ");
    reveal_strlit(" order by count(*) desc");
    reveal_strlit("language");
    reveal_strlit("kind");
    reveal_strlit("nodes");
    reveal_strlit("edges");
    reveal_strlit(
        "select language, count(*) from nodes group by language order by count(*) desc",
    );
    reveal_strlit("select kind, count(*) from nodes group by kind order by count(*) desc");
    reveal_strlit("select kind, count(*) from edges group by kind order by count(*) desc");
    assert(LANGUAGES@ =~= grouping("language"@, "nodes"@).sql);
    assert(NODE_KINDS@ =~= grouping("kind"@, "nodes"@).sql);
    assert(EDGE_KINDS@ =~= grouping("kind"@, "edges"@).sql);
}

/// The statements about ids bind the ids to their one list, and the one for edges its limit too. It
/// asks for the edges of all kinds: a kind only says which come first.
pub proof fn law_ids_are_bound_to_their_statements(ids: Seq<char>, limit: i64)
    ensures
        nodes_by_ids_question(ids) == (Question {
            sql: "select id, kind, name, qualified_name, file_path, language, start_line, end_line, signature, docstring, visibility, is_exported, is_async, is_static, is_abstract
         from nodes where id in (select value from json_each(?1))"@,
            params: seq![Bound::Text(ids)],
        }),
        files_question(ids) == (Question {
            sql: "select distinct f.path, f.language, f.size, f.node_count, f.errors
         from files f join nodes n on n.file_path = f.path
         where n.id in (select value from json_each(?1))
         order by f.path"@,
            params: seq![Bound::Text(ids)],
        }),
        edges_question(ids, limit) == (Question {
            sql: "select id, source, target, kind, metadata, line, col, provenance
         from edges
         where source in (select value from json_each(?1)) or target in (select value from json_each(?1))
         order by case kind when 'contains' then 0 when 'calls' then 1 when 'imports' then 2 else 3 end
         limit ?2"@,
            params: seq![Bound::Text(ids), Bound::Integer(limit)],
        }),
{
}

/// A list is written as a JSON array of all its strings, and an empty one not at all.
pub proof fn law_filter_lists_all_its_strings(values: Seq<Seq<char>>)
    ensures
        values.len() == 0 ==> json_filter(values) is None,
        values.len() > 0 ==> json_filter(values) == Some(json_strings(values)),
{
}

/// Whether a bound value, as a pattern, matches a text.
pub open spec fn matches_bound(value: Bound, text: Seq<char>) -> bool {
    value matches Bound::Text(pattern) && like_matches(pattern, text)
}

/// Whether a text is in the list that a bound value is read as.
pub open spec fn in_bound(
    value: Bound,
    listed: spec_fn(Seq<char>) -> Seq<Seq<char>>,
    text: Seq<char>,
) -> bool {
    value matches Bound::Text(array) && listed(array).contains(text)
}

/// Whether a row of the table of nodes meets the conditions in the text of a statement, from behind
/// the name of the table on. The conditions are read one by one, and each takes the next values:
/// the first stands behind `where`, the others behind `and`. A JSON array is read by `listed`.
pub open spec fn selects(
    clauses: Seq<char>,
    first: bool,
    params: Seq<Bound>,
    listed: spec_fn(Seq<char>) -> Seq<Seq<char>>,
    record: NodeRecord,
) -> bool
    decreases params.len(),
{
    let link = if first { " where "@ } else { " and "@ };
    let by_text = "(name like ? escape '\\' or qualified_name like ? escape '\\' or file_path like ? escape '\\')"@;
    let by_language = "language in (select value from json_each(?))"@;
    let by_kind = "kind in (select value from json_each(?))"@;
    let rest = clauses.skip(link.len() as int);
    if " order by "@.is_prefix_of(clauses) {
        true
    } else if !link.is_prefix_of(clauses) {
        false
    } else if by_text.is_prefix_of(rest) && params.len() >= 3 {
        &&& matches_bound(params[0], record.name@) || matches_bound(
            params[1],
            record.qualified_name@,
        ) || matches_bound(params[2], record.file_path@)
        &&& selects(rest.skip(by_text.len() as int), false, params.skip(3), listed, record)
    } else if by_language.is_prefix_of(rest) && params.len() >= 1 {
        &&& in_bound(params[0], listed, record.language@)
        &&& selects(rest.skip(by_language.len() as int), false, params.skip(1), listed, record)
    } else if by_kind.is_prefix_of(rest) && params.len() >= 1 {
        &&& in_bound(params[0], listed, record.kind@)
        &&& selects(rest.skip(by_kind.len() as int), false, params.skip(1), listed, record)
    } else {
        false
    }
}

/// What stands behind the start of a text.
proof fn lemma_starts(start: Seq<char>, rest: Seq<char>)
    ensures
        start.is_prefix_of(start + rest),
        (start + rest).skip(start.len() as int) == rest,
{
    assert((start + rest).subrange(0, start.len() as int) =~= start);
    assert((start + rest).skip(start.len() as int) =~= rest);
}

/// Two texts that begin with different characters are no starts of each other.
proof fn lemma_starts_apart(start: Seq<char>, whole: Seq<char>, index: int)
    requires
        0 <= index < start.len(),
        0 <= index < whole.len(),
        start[index] != whole[index],
    ensures
        !start.is_prefix_of(whole),
{
    if start.is_prefix_of(whole) {
        assert(start =~= whole.subrange(0, start.len() as int));
        assert(whole.subrange(0, start.len() as int)[index] == whole[index]);
    }
}

/// The three conditions begin with different characters.
proof fn lemma_conditions_apart()
    ensures
        MATCHES_QUERY@.len() > 0 && MATCHES_QUERY@[0] == '(',
        IN_LANGUAGES@.len() > 0 && IN_LANGUAGES@[0] == 'l',
        OF_KINDS@.len() > 0 && OF_KINDS@[0] == 'k',
{
    reveal_strlit("(name like ? escape '\\' or qualified_name like ? escape '\\' or file_path like ? escape '\\')");
    reveal_strlit("language in (select value from json_each(?))");
    reveal_strlit("kind in (select value from json_each(?))");
}

/// How one condition is read.
proof fn lemma_selects(
    first: bool,
    condition: Seq<char>,
    tail: Seq<char>,
    params: Seq<Bound>,
    listed: spec_fn(Seq<char>) -> Seq<Seq<char>>,
    record: NodeRecord,
)
    requires
        params.len() >= 1,
        condition == MATCHES_QUERY@ ==> params.len() >= 3,
        condition == MATCHES_QUERY@ || condition == IN_LANGUAGES@ || condition == OF_KINDS@,
    ensures
        ({
            let link = if first { " where "@ } else { " and "@ };
            let met = selects(link + (condition + tail), first, params, listed, record);
            &&& condition == MATCHES_QUERY@ ==> (met <==> (matches_bound(params[0], record.name@)
                || matches_bound(params[1], record.qualified_name@) || matches_bound(
                params[2],
                record.file_path@,
            )) && selects(tail, false, params.skip(3), listed, record))
            &&& condition == IN_LANGUAGES@ ==> (met <==> in_bound(
                params[0],
                listed,
                record.language@,
            ) && selects(tail, false, params.skip(1), listed, record))
            &&& condition == OF_KINDS@ ==> (met <==> in_bound(params[0], listed, record.kind@)
                && selects(tail, false, params.skip(1), listed, record))
        }),
{
    let link = if first { " where "@ } else { " and "@ };
    let rest = condition + tail;
    let clauses = link + rest;
    reveal_strlit(" where ");
    reveal_strlit(" and ");
    reveal_strlit(" order by ");
    lemma_conditions_apart();
    lemma_starts(link, rest);
    lemma_starts(condition, tail);
    assert(clauses[1] == link[1]);
    assert(rest[0] == condition[0]);
    lemma_starts_apart(" order by "@, clauses, 1);
    if condition == IN_LANGUAGES@ {
        lemma_starts_apart(MATCHES_QUERY@, rest, 0);
    }
    if condition == OF_KINDS@ {
        lemma_starts_apart(MATCHES_QUERY@, rest, 0);
        lemma_starts_apart(IN_LANGUAGES@, rest, 0);
    }
    assert(clauses.skip(link.len() as int) == rest);
}

/// The statement for nodes, as the database reads it, selects a row if and only if one of its two
/// names or its path holds the query, its language is in the one list if there is any, and its kind
/// in the other. No more rows are asked for than the limit says.
pub proof fn law_nodes_statement_reads_query_and_lists(
    limit: nat,
    query: Seq<char>,
    languages: Option<Seq<char>>,
    kinds: Option<Seq<char>>,
    listed: spec_fn(Seq<char>) -> Seq<Seq<char>>,
    record: NodeRecord,
)
    ensures
        ({
            let question = nodes_question(limit, query, languages, kinds);
            let head = "select id, kind, name, qualified_name, file_path, language, start_line, end_line, signature, docstring, visibility, is_exported, is_async, is_static, is_abstract from nodes"@;
            let wanted = text::trimmed(query);
            &&& head.is_prefix_of(question.sql)
            &&& selects(question.sql.skip(head.len() as int), true, question.params, listed, record)
                <==> (holds(record.name@, wanted) || holds(record.qualified_name@, wanted)
                || holds(record.file_path@, wanted)) && (languages is None
                || listed(languages->0).contains(record.language@)) && (kinds is None || listed(
                kinds->0,
            ).contains(record.kind@))
            &&& " order by case kind when 'file' then 0 when 'class' then 1 when 'interface' then 2 when 'function' then 3 when 'method' then 4 else 5 end, file_path, start_line limit ?"@.is_suffix_of(
                question.sql,
            )
            &&& question.params.len() > 0
            &&& question.params.last() matches Bound::Text(digits)
            &&& text::number_of(digits) == limit
            &&& text::all_digits(digits)
        }),
{
    let question = nodes_question(limit, query, languages, kinds);
    let sql = question.sql;
    let wanted = text::trimmed(query);
    let by_query = wanted.len() > 0;
    let by_language = languages is Some;
    let by_kind = kinds is Some;
    let conditions = node_conditions(by_query, by_language, by_kind);
    let last = text::decimal(limit);
    text::law_decimal_stands_for_the_number(limit);
    law_search_finds_what_holds_the_query(query, record.name@);
    law_search_finds_what_holds_the_query(query, record.qualified_name@);
    law_search_finds_what_holds_the_query(query, record.file_path@);
    if !by_query {
        assert(stands_at(wanted, record.name@, 0));
    }
    let end = seq![Bound::Text(last)];
    let for_kind = if by_kind { seq![Bound::Text(kinds->0)] + end } else { end };
    let for_language = if by_language {
        seq![Bound::Text(languages->0)] + for_kind
    } else {
        for_kind
    };
    let found = Bound::Text(pattern(query));
    let all = if by_query { seq![found, found, found] + for_language } else { for_language };
    assert(question.params =~= all);
    assert(all.last() == Bound::Text(last));
    let order = NODES_ORDER@;
    assert(forall|first: bool, params: Seq<Bound>| #[trigger]
        selects(order, first, params, listed, record)) by {
        lemma_order_is_no_condition(listed, record);
    }
    // The clauses from the kind on, from the language on, and all of them.
    let kind_tail = if by_kind { " and "@ + (OF_KINDS@ + order) } else { order };
    let language_tail = if by_language { " and "@ + (IN_LANGUAGES@ + kind_tail) } else { kind_tail };
    let clauses = if by_query {
        " where "@ + (MATCHES_QUERY@ + language_tail)
    } else if by_language {
        " where "@ + (IN_LANGUAGES@ + kind_tail)
    } else if by_kind {
        " where "@ + (OF_KINDS@ + order)
    } else {
        order
    };
    assert(sql == NODES@ + clauses) by {
        lemma_nodes_sql(by_query, by_language, by_kind);
    }
    lemma_starts(NODES@, clauses);
    assert(for_language.skip(1) =~= for_kind || !by_language);
    assert(for_kind.skip(1) =~= end || !by_kind);
    assert(all.skip(3) =~= for_language || !by_query);
    lemma_conditions_apart();
    lemma_selects(true, OF_KINDS@, order, for_kind, listed, record);
    lemma_selects(false, OF_KINDS@, order, for_kind, listed, record);
    lemma_selects(true, IN_LANGUAGES@, kind_tail, for_language, listed, record);
    lemma_selects(false, IN_LANGUAGES@, kind_tail, for_language, listed, record);
    if by_query {
        lemma_selects(true, MATCHES_QUERY@, language_tail, all, listed, record);
    }
    assert(sql.subrange(sql.len() - order.len(), sql.len() as int) =~= order) by {
        lemma_nodes_sql(by_query, by_language, by_kind);
    }
}

/// The statement for nodes, as the database reads it, selects a row if and only if one of its two
/// names or its path holds the query, its language is one of those that are listed, and so is its
/// kind. Each list counts by itself: a list that is empty sets no condition, whatever the other
/// holds. No more rows are asked for than the limit says.
pub proof fn law_nodes_statement_selects_what_is_searched_for(
    limit: nat,
    query: Seq<char>,
    languages: Seq<Seq<char>>,
    kinds: Seq<Seq<char>>,
    listed: spec_fn(Seq<char>) -> Seq<Seq<char>>,
    record: NodeRecord,
)
    requires
        listed(json_strings(languages)) == languages,
        listed(json_strings(kinds)) == kinds,
    ensures
        ({
            let question = nodes_question(
                limit,
                query,
                if languages.len() == 0 { None } else { Some(json_strings(languages)) },
                if kinds.len() == 0 { None } else { Some(json_strings(kinds)) },
            );
            let head = "select id, kind, name, qualified_name, file_path, language, start_line, end_line, signature, docstring, visibility, is_exported, is_async, is_static, is_abstract from nodes"@;
            let wanted = text::trimmed(query);
            &&& head.is_prefix_of(question.sql)
            &&& selects(question.sql.skip(head.len() as int), true, question.params, listed, record)
                <==> (holds(record.name@, wanted) || holds(record.qualified_name@, wanted)
                || holds(record.file_path@, wanted)) && (languages.len() == 0
                || languages.contains(record.language@)) && (kinds.len() == 0 || kinds.contains(
                record.kind@,
            ))
            &&& " order by case kind when 'file' then 0 when 'class' then 1 when 'interface' then 2 when 'function' then 3 when 'method' then 4 else 5 end, file_path, start_line limit ?"@.is_suffix_of(
                question.sql,
            )
            &&& question.params.len() > 0
            &&& question.params.last() matches Bound::Text(digits)
            &&& text::number_of(digits) == limit
            &&& text::all_digits(digits)
        }),
{
    law_nodes_statement_reads_query_and_lists(
        limit,
        query,
        if languages.len() == 0 { None } else { Some(json_strings(languages)) },
        if kinds.len() == 0 { None } else { Some(json_strings(kinds)) },
        listed,
        record,
    );
}

/// Behind the conditions the order follows.
proof fn lemma_order_is_no_condition(
    listed: spec_fn(Seq<char>) -> Seq<Seq<char>>,
    record: NodeRecord,
)
    ensures
        forall|first: bool, params: Seq<Bound>| #[trigger]
            selects(NODES_ORDER@, first, params, listed, record),
{
    reveal_strlit(" order by ");
    reveal_strlit(" order by case kind when 'file' then 0 when 'class' then 1 when 'interface' then 2 when 'function' then 3 when 'method' then 4 else 5 end, file_path, start_line limit ?");
    assert(NODES_ORDER@.subrange(0, " order by "@.len() as int) =~= " order by "@);
}

/// The conditions stand one behind the other, from `where` to the order.
proof fn lemma_nodes_sql(by_query: bool, by_language: bool, by_kind: bool)
    ensures
        ({
            let sql = nodes_sql(node_conditions(by_query, by_language, by_kind));
            let order = NODES_ORDER@;
            let kind_tail = if by_kind { " and "@ + (OF_KINDS@ + order) } else { order };
            let language_tail = if by_language {
                " and "@ + (IN_LANGUAGES@ + kind_tail)
            } else {
                kind_tail
            };
            &&& sql == NODES@ + if by_query {
                " where "@ + (MATCHES_QUERY@ + language_tail)
            } else if by_language {
                " where "@ + (IN_LANGUAGES@ + kind_tail)
            } else if by_kind {
                " where "@ + (OF_KINDS@ + order)
            } else {
                order
            }
            &&& sql.len() >= order.len()
            &&& sql.subrange(sql.len() - order.len(), sql.len() as int) == order
        }),
{
    let conditions = node_conditions(by_query, by_language, by_kind);
    let sql = nodes_sql(conditions);
    let order = NODES_ORDER@;
    let kind_tail = if by_kind { " and "@ + (OF_KINDS@ + order) } else { order };
    let language_tail = if by_language { " and "@ + (IN_LANGUAGES@ + kind_tail) } else { kind_tail };
    let clauses = if by_query {
        " where "@ + (MATCHES_QUERY@ + language_tail)
    } else if by_language {
        " where "@ + (IN_LANGUAGES@ + kind_tail)
    } else if by_kind {
        " where "@ + (OF_KINDS@ + order)
    } else {
        order
    };
    reveal_with_fuel(text::joined, 3);
    if conditions.len() > 1 {
        assert(conditions.drop_last()[0] == conditions[0]);
    }
    if conditions.len() > 2 {
        assert(conditions.drop_last().drop_last()[0] == conditions[0]);
    }
    assert(sql =~= NODES@ + clauses);
    assert(sql.subrange(sql.len() - order.len(), sql.len() as int) =~= order);
}

} // verus!
