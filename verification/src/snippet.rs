//! The source lines of a node.

use vstd::prelude::*;
use vstd::string::*;

use crate::error::AppError;
use crate::paths;
use crate::rows::{SnippetLine, SnippetRequest, SnippetResponse};
use crate::text;

verus! {

/// How many lines are shown around a node if the request does not say.
pub const DEFAULT_CONTEXT: i64 = 4;

/// How many lines are shown around a node at most.
pub const MAX_CONTEXT: i64 = 30;

/// What was found at the path of a source file.
pub enum SourceFile {
    /// There is no file.
    Missing,
    /// There is a file, but it cannot be read, for the reason given.
    Unreadable(String),
    /// The text of the file.
    Text(String),
}

/// The lines to show, by their numbers, first and last: the node's own, and with its surroundings.
#[derive(Clone, Copy, Debug, PartialEq, Eq, Structural)]
pub struct Window {
    pub node_start: i64,
    pub node_end: i64,
    pub start_line: i64,
    pub end_line: i64,
}

/// `value`, or the nearer end of the range from `low` to `high` if it lies outside.
pub open spec fn clamped(value: int, low: int, high: int) -> int {
    if value < low {
        low
    } else if value > high {
        high
    } else {
        value
    }
}

/// The greater of two numbers.
pub open spec fn greater(left: int, right: int) -> int {
    if left >= right {
        left
    } else {
        right
    }
}

/// The number of the last line of a file; an empty file counts as one line.
pub open spec fn last_line(line_count: int) -> int {
    greater(line_count, 1)
}

/// How many lines are shown around a node.
pub open spec fn context_lines(context: Option<i64>) -> int {
    match context {
        Some(lines) => clamped(lines as int, 0, MAX_CONTEXT as int),
        None => DEFAULT_CONTEXT as int,
    }
}

/// The numbers of the lines to show, as [`Window`] holds them.
pub struct Span {
    pub node_start: int,
    pub node_end: int,
    pub start_line: int,
    pub end_line: int,
}

impl View for Window {
    type V = Span;

    open spec fn view(&self) -> Span {
        Span {
            node_start: self.node_start as int,
            node_end: self.node_end as int,
            start_line: self.start_line as int,
            end_line: self.end_line as int,
        }
    }
}

/// The lines to show of a file with `line_count` lines, for a node from `start` to `end`. A node
/// that reaches beyond the file is cut, and one that ends before it starts has one line.
pub open spec fn span_of(start: int, end: int, context: Option<i64>, line_count: int) -> Span {
    let last = last_line(line_count);
    let node_start = clamped(start, 1, last);
    let node_end = clamped(end, node_start, last);
    Span {
        node_start,
        node_end,
        start_line: clamped(node_start - context_lines(context), 1, last),
        end_line: clamped(node_end + context_lines(context), 1, last),
    }
}

/// Moves a number into the range from `low` to `high`.
fn clamp(value: i64, low: i64, high: i64) -> (result: i64)
    ensures
        result == clamped(value as int, low as int, high as int),
{
    if value < low {
        low
    } else if value > high {
        high
    } else {
        value
    }
}

/// Finds the lines to show of a file with `line_count` lines.
pub fn snippet_window(start: i64, end: i64, context: Option<i64>, line_count: i64) -> (window:
    Window)
    ensures
        window@ == span_of(start as int, end as int, context, line_count as int),
        ({
            let last = if line_count < 1 { 1 } else { line_count as int };
            let around = match context {
                Some(lines) => if lines < 0 { 0 } else if lines > 30 { 30 } else { lines as int },
                None => 4,
            };
            &&& window.node_start == if start < 1 {
                1
            } else if start > last {
                last
            } else {
                start as int
            }
            &&& window.node_end == if end < window.node_start {
                window.node_start as int
            } else if end > last {
                last
            } else {
                end as int
            }
            &&& window.start_line == if window.node_start - around < 1 {
                1
            } else {
                window.node_start - around
            }
            &&& window.end_line == if window.node_end + around > last {
                last
            } else {
                window.node_end + around
            }
        }),
{
    let last = if line_count < 1 {
        1
    } else {
        line_count
    };
    let around = match context {
        Some(lines) => clamp(lines, 0, MAX_CONTEXT),
        None => DEFAULT_CONTEXT,
    };
    let node_start = clamp(start, 1, last);
    let node_end = clamp(end, node_start, last);
    let end_line = if last - node_end < around {
        last
    } else {
        node_end + around
    };
    Window { node_start, node_end, start_line: clamp(node_start - around, 1, last), end_line }
}

/// How many lines of a file are shown: from an empty file none.
pub open spec fn shown_count(span: Span, line_count: int) -> int {
    if line_count == 0 {
        0
    } else {
        span.end_line - span.start_line + 1
    }
}

/// Whether `shown` are the lines of a span, in their order: each has its number, its text, and is
/// highlighted if it belongs to the node.
pub open spec fn shows_lines(shown: Seq<SnippetLine>, span: Span, lines: Seq<Seq<char>>) -> bool {
    &&& shown.len() == shown_count(span, lines.len() as int)
    &&& forall|i: int|
        #![trigger shown[i]]
        0 <= i < shown.len() ==> {
            &&& shown[i].number == span.start_line + i
            &&& shown[i].text@ == lines[shown[i].number - 1]
            &&& shown[i].highlighted == (span.node_start <= shown[i].number <= span.node_end)
        }
}

/// Picks the lines of a window out of the lines of a file.
fn snippet_lines(lines: &Vec<String>, window: Window) -> (shown: Vec<SnippetLine>)
    requires
        1 <= window.start_line <= window.end_line <= last_line(lines@.len() as int),
    ensures
        shows_lines(shown@, window@, text::texts(lines@)),
{
    let mut shown: Vec<SnippetLine> = Vec::new();
    if lines.len() == 0 {
        return shown;
    }
    let first: usize = (window.start_line - 1) as usize;
    let end: usize = window.end_line as usize;
    for index in first..end
        invariant
            first == window.start_line - 1,
            end == window.end_line,
            end <= lines@.len(),
            end <= i64::MAX,
            shown@.len() == index - first,
            forall|i: int|
                #![trigger shown@[i]]
                0 <= i < shown@.len() ==> {
                    &&& shown@[i].number == window.start_line + i
                    &&& shown@[i].text@ == text::texts(lines@)[shown@[i].number - 1]
                    &&& shown@[i].highlighted == (window.node_start <= shown@[i].number
                        <= window.node_end)
                },
    {
        let number: i64 = index as i64 + 1;
        shown.push(
            SnippetLine {
                number,
                text: lines[index].clone(),
                highlighted: window.node_start <= number && number <= window.node_end,
            },
        );
    }
    shown
}

/// Finds the source file of a request in the project at `root`. A request that names no file is
/// refused.
pub fn snippet_path(root: &str, request: &SnippetRequest) -> (result: Result<String, AppError>)
    ensures
        result is Err <==> text::trimmed(request.file_path@).len() == 0,
        result matches Ok(path) ==> path@ == paths::resolved_path(root@, request.file_path@),
        result matches Ok(path) ==> path@ == if paths::absolute_path(request.file_path@) {
            request.file_path@
        } else {
            paths::joined_path(root@, request.file_path@)
        },
        result matches Err(error) ==> error.status is BadRequest,
        result matches Err(error) ==> error.refuses("节点缺少文件路径"@),
{
    if request.file_path.as_str().trim().is_empty() {
        return Err(AppError::bad_request("节点缺少文件路径".to_owned()));
    }
    Ok(paths::resolve_source_path(root, request.file_path.as_str()))
}

/// Whether an answer is the one to a request for lines of the file at `path`, provided that an `i64`
/// can number the lines, as it can those of any text that fits in memory.
pub open spec fn answers_snippet(
    result: Result<SnippetResponse, AppError>,
    path: Seq<char>,
    request: SnippetRequest,
    source: SourceFile,
) -> bool {
    match source {
        SourceFile::Missing => result matches Err(error) && error.refuses(
            "找不到源码文件: "@ + path,
        ),
        SourceFile::Unreadable(reason) => result matches Err(error) && error.refuses(
            "无法读取源码文件 "@ + path + ": "@ + reason@,
        ),
        SourceFile::Text(content) => {
            &&& result matches Ok(response)
            &&& response.path@ == path
            &&& text::lines_of(content@).len() <= i64::MAX ==> answers_with_lines(
                response,
                request,
                text::lines_of(content@),
            )
        },
    }
}

/// The lines that a request asks for, out of a file with `line_count` lines.
pub open spec fn request_span(request: SnippetRequest, line_count: int) -> Span {
    span_of(request.start_line as int, request.end_line as int, request.context, line_count)
}

/// Whether a response shows the lines that a request asks for, out of the lines of the file.
pub open spec fn answers_with_lines(
    response: SnippetResponse,
    request: SnippetRequest,
    lines: Seq<Seq<char>>,
) -> bool {
    let span = request_span(request, lines.len() as int);
    &&& response.start_line == span.start_line
    &&& response.end_line == span.end_line
    &&& shows_lines(response.lines@, span, lines)
}

/// Answers a request for lines of the file at `path`, from what was found there.
pub fn snippet(path: String, request: &SnippetRequest, source: SourceFile) -> (result: Result<
    SnippetResponse,
    AppError,
>)
    ensures
        answers_snippet(result, path@, *request, source),
{
    match source {
        SourceFile::Missing => Err(
            AppError::bad_request("找不到源码文件: ".to_owned().concat(path.as_str())),
        ),
        SourceFile::Unreadable(reason) => Err(
            AppError::bad_request(
                "无法读取源码文件 ".to_owned().concat(path.as_str()).concat(": ").concat(
                    reason.as_str(),
                ),
            ),
        ),
        SourceFile::Text(content) => {
            let lines = text::split_lines(content.as_str());
            let window = snippet_window(
                request.start_line,
                request.end_line,
                request.context,
                lines.len() as i64,
            );
            let shown = snippet_lines(&lines, window);
            Ok(
                SnippetResponse {
                    path,
                    start_line: window.start_line,
                    end_line: window.end_line,
                    lines: shown,
                },
            )
        },
    }
}

/// The lines to show lie in the file, hold the lines of the node, and go beyond them by no more than
/// the context on either side.
pub proof fn law_window_holds_the_node(
    start: int,
    end: int,
    context: Option<i64>,
    line_count: int,
)
    ensures
        ({
            let span = span_of(start, end, context, line_count);
            &&& 1 <= span.start_line <= span.node_start <= span.node_end <= span.end_line
                <= last_line(line_count)
            &&& span.node_start - span.start_line <= context_lines(context) <= MAX_CONTEXT
            &&& span.end_line - span.node_end <= context_lines(context)
        }),
{
}

/// A node that lies in the file keeps its lines.
pub proof fn law_node_in_file_is_not_cut(
    start: int,
    end: int,
    context: Option<i64>,
    line_count: int,
)
    requires
        1 <= start <= end <= line_count,
    ensures
        span_of(start, end, context, line_count).node_start == start,
        span_of(start, end, context, line_count).node_end == end,
{
}

/// Of a file that is not empty at least one line is shown as the node's, and the lines shown are
/// one stretch of the file; of an empty file none is shown.
pub proof fn law_snippet_shows_the_node(
    response: SnippetResponse,
    request: SnippetRequest,
    lines: Seq<Seq<char>>,
)
    requires
        answers_with_lines(response, request, lines),
    ensures
        1 <= response.start_line <= response.end_line <= last_line(lines.len() as int),
        lines.len() == 0 ==> response.lines@.len() == 0,
        lines.len() > 0 ==> {
            &&& response.lines@.len() == response.end_line - response.start_line + 1
            &&& response.lines@.first().number == response.start_line
            &&& response.lines@.last().number == response.end_line
            &&& exists|i: int| 0 <= i < response.lines@.len() && response.lines@[i].highlighted
        },
        forall|i: int|
            0 <= i < response.lines@.len() ==> response.lines@[i].text@ == lines[response.start_line
                - 1 + i],
{
    let span = request_span(request, lines.len() as int);
    if lines.len() > 0 {
        assert(response.lines@[span.node_start - span.start_line].highlighted);
    }
}

/// Two answers to one request for one file are the same, line for line.
pub proof fn law_snippet_is_determined(
    one: SnippetResponse,
    other: SnippetResponse,
    request: SnippetRequest,
    lines: Seq<Seq<char>>,
)
    requires
        answers_with_lines(one, request, lines),
        answers_with_lines(other, request, lines),
    ensures
        one.start_line == other.start_line,
        one.end_line == other.end_line,
        one.lines@.len() == other.lines@.len(),
        forall|i: int|
            #![trigger one.lines@[i]]
            0 <= i < one.lines@.len() ==> {
                &&& one.lines@[i].number == other.lines@[i].number
                &&& one.lines@[i].text@ == other.lines@[i].text@
                &&& one.lines@[i].highlighted == other.lines@[i].highlighted
            },
{
}

/// A request that does not say how many lines to show around a node is answered as one for four
/// lines. One for less than none is answered as one for none, and one for more than thirty as one
/// for thirty.
pub proof fn law_context_is_bounded(
    result: Result<SnippetResponse, AppError>,
    path: Seq<char>,
    request: SnippetRequest,
    context: i64,
    source: SourceFile,
)
    ensures
        answers_snippet(result, path, SnippetRequest { context: None, ..request }, source)
            <==> answers_snippet(result, path, SnippetRequest { context: Some(4), ..request }, source),
        context < 0 ==> (answers_snippet(
            result,
            path,
            SnippetRequest { context: Some(context), ..request },
            source,
        ) <==> answers_snippet(
            result,
            path,
            SnippetRequest { context: Some(0), ..request },
            source,
        )),
        context > 30 ==> (answers_snippet(
            result,
            path,
            SnippetRequest { context: Some(context), ..request },
            source,
        ) <==> answers_snippet(
            result,
            path,
            SnippetRequest { context: Some(30), ..request },
            source,
        )),
{
}

/// More context only adds lines before and behind: the lines that less context shows are one stretch
/// of those that more context shows, and the same lines are highlighted.
pub proof fn law_context_adds_lines_around(
    less: SnippetResponse,
    more: SnippetResponse,
    request: SnippetRequest,
    wider: SnippetRequest,
    lines: Seq<Seq<char>>,
)
    requires
        request.start_line == wider.start_line,
        request.end_line == wider.end_line,
        context_lines(request.context) <= context_lines(wider.context),
        answers_with_lines(less, request, lines),
        answers_with_lines(more, wider, lines),
    ensures
        more.start_line <= less.start_line <= less.end_line <= more.end_line,
        less.start_line - more.start_line + less.lines@.len() <= more.lines@.len(),
        forall|i: int|
            #![trigger less.lines@[i]]
            0 <= i < less.lines@.len() ==> {
                let same = more.lines@[less.start_line - more.start_line + i];
                &&& less.lines@[i].number == same.number
                &&& less.lines@[i].text@ == same.text@
                &&& less.lines@[i].highlighted == same.highlighted
            },
        forall|k: int|
            #![trigger more.lines@[k]]
            0 <= k < more.lines@.len() && more.lines@[k].highlighted ==> 0 <= k - (less.start_line
                - more.start_line) < less.lines@.len(),
{
    let narrow = request_span(request, lines.len() as int);
    let wide = request_span(wider, lines.len() as int);
    assert(narrow.node_start == wide.node_start && narrow.node_end == wide.node_end);
    law_window_holds_the_node(
        request.start_line as int,
        request.end_line as int,
        request.context,
        lines.len() as int,
    );
}

/// The number of lines that are highlighted, if these are one stretch.
proof fn lemma_highlighted(lines: Seq<SnippetLine>, low: int, high: int)
    requires
        0 <= low <= high <= lines.len(),
        forall|i: int|
            0 <= i < lines.len() ==> ((#[trigger] lines[i]).highlighted <==> low <= i < high),
    ensures
        lines.filter(|line: SnippetLine| line.highlighted).len() == high - low,
    decreases lines.len(),
{
    let lit = |line: SnippetLine| line.highlighted;
    reveal(Seq::filter);
    if lines.len() > 0 {
        let last = lines.len() - 1;
        assert(lines.last() == lines[last]);
        if high == lines.len() && low < high {
            lemma_highlighted(lines.drop_last(), low, high - 1);
        } else if high == lines.len() {
            lemma_highlighted(lines.drop_last(), low - 1, high - 1);
        } else {
            lemma_highlighted(lines.drop_last(), low, high);
        }
    }
}

/// The answer to a request for a node that lies in the file: the lines of the node, from its first to
/// its last, are highlighted, all of them and no others. Shown are these lines, and on either side
/// as many as the context says or the file has: four if the request does not say, and never more
/// than thirty. Each line has the text that the file has under its number, and they come in order.
pub proof fn law_snippet_shows_and_highlights_the_node(
    result: Result<SnippetResponse, AppError>,
    path: Seq<char>,
    request: SnippetRequest,
    content: String,
)
    requires
        answers_snippet(result, path, request, SourceFile::Text(content)),
        1 <= request.start_line <= request.end_line <= text::lines_of(content@).len() <= i64::MAX,
    ensures
        result is Ok,
        result->Ok_0.path@ == path,
        ({
            let lines = text::lines_of(content@);
            let shown = result->Ok_0.lines@;
            let around: int = match request.context {
                Some(count) => if count < 0 { 0 } else if count > 30 { 30 } else { count as int },
                None => 4,
            };
            &&& forall|i: int|
                0 <= i < shown.len() ==> ((#[trigger] shown[i]).highlighted <==> request.start_line
                    <= shown[i].number <= request.end_line)
            &&& shown.filter(|line: SnippetLine| line.highlighted).len() == request.end_line
                - request.start_line + 1
            &&& forall|i: int|
                0 <= i < shown.len() ==> {
                    &&& 1 <= (#[trigger] shown[i]).number <= lines.len()
                    &&& request.start_line - around <= shown[i].number <= request.end_line + around
                    &&& shown[i].text@ == lines[shown[i].number - 1]
                }
            &&& forall|number: int|
                1 <= number <= lines.len() && request.start_line - around <= number
                    <= request.end_line + around ==> 0 <= number - result->Ok_0.start_line
                    < shown.len() && (#[trigger] shown[number
                    - result->Ok_0.start_line]).number == number
            &&& shown.len() > 0
            &&& result->Ok_0.start_line == shown.first().number
            &&& result->Ok_0.end_line == shown.last().number
        }),
{
    let lines = text::lines_of(content@);
    let shown = result->Ok_0.lines@;
    let start = result->Ok_0.start_line;
    assert forall|i: int| 0 <= i < shown.len() implies ((#[trigger] shown[i]).highlighted
        <==> request.start_line - start <= i < request.end_line - start + 1) by {}
    lemma_highlighted(shown, request.start_line - start, request.end_line - start + 1);
}

/// A node that starts before the file, or behind it, or ends before it starts, or behind the file, is
/// answered like one with these lines moved into the file: to the first line or the last, and the end
/// to the start. A file without lines is taken to have one line, of which none is shown.
pub proof fn law_lines_outside_the_file_are_moved_into_it(
    result: Result<SnippetResponse, AppError>,
    path: Seq<char>,
    request: SnippetRequest,
    content: String,
    last: i64,
)
    requires
        last == if text::lines_of(content@).len() == 0 {
            1
        } else {
            text::lines_of(content@).len()
        },
    ensures
        request.start_line < 1 ==> (answers_snippet(
            result,
            path,
            request,
            SourceFile::Text(content),
        ) <==> answers_snippet(
            result,
            path,
            SnippetRequest { start_line: 1, ..request },
            SourceFile::Text(content),
        )),
        request.start_line > last ==> (answers_snippet(
            result,
            path,
            request,
            SourceFile::Text(content),
        ) <==> answers_snippet(
            result,
            path,
            SnippetRequest { start_line: last, end_line: last, ..request },
            SourceFile::Text(content),
        )),
        request.end_line > last ==> (answers_snippet(
            result,
            path,
            request,
            SourceFile::Text(content),
        ) <==> answers_snippet(
            result,
            path,
            SnippetRequest { end_line: last, ..request },
            SourceFile::Text(content),
        )),
        1 <= request.start_line <= last && request.end_line < request.start_line ==> (
        answers_snippet(result, path, request, SourceFile::Text(content)) <==> answers_snippet(
            result,
            path,
            SnippetRequest { end_line: request.start_line, ..request },
            SourceFile::Text(content),
        )),
        text::lines_of(content@).len() == 0 && answers_snippet(
            result,
            path,
            request,
            SourceFile::Text(content),
        ) ==> result is Ok && result->Ok_0.path@ == path && result->Ok_0.lines@.len() == 0
            && result->Ok_0.start_line == 1 && result->Ok_0.end_line == 1,
{
}

/// A file that is missing or cannot be read is answered by a refusal that names it, and the reason if
/// there is one.
pub proof fn law_file_without_text_is_refused(
    result: Result<SnippetResponse, AppError>,
    path: Seq<char>,
    request: SnippetRequest,
    reason: String,
)
    ensures
        answers_snippet(result, path, request, SourceFile::Missing) ==> result is Err
            && result->Err_0.status is BadRequest && result->Err_0.message@
            == "找不到源码文件: "@ + path,
        answers_snippet(result, path, request, SourceFile::Unreadable(reason)) ==> result is Err
            && result->Err_0.status is BadRequest && result->Err_0.message@
            == "无法读取源码文件 "@ + path + ": "@ + reason@,
{
}

} // verus!
