//! Which edges of a graph can be drawn, and which nodes that takes.

use vstd::hash_set::StringHashSet;
use vstd::prelude::*;

use crate::rows::EdgeRow;
use crate::text;

verus! {

/// The ids at the two ends of each edge, in the order of the edges, the source first.
pub open spec fn endpoints(edges: Seq<EdgeRow>) -> Seq<Seq<char>>
    decreases edges.len(),
{
    if edges.len() == 0 {
        seq![]
    } else {
        endpoints(edges.drop_last()).push(edges.last().source@).push(edges.last().target@)
    }
}

/// Those of the ids that are not visible, in their order, each of them once.
pub open spec fn unseen(ids: Seq<Seq<char>>, visible: Seq<Seq<char>>) -> Seq<Seq<char>>
    decreases ids.len(),
{
    if ids.len() == 0 {
        seq![]
    } else {
        let before = unseen(ids.drop_last(), visible);
        if visible.contains(ids.last()) || before.contains(ids.last()) {
            before
        } else {
            before.push(ids.last())
        }
    }
}

/// The first `limit` of a list.
pub open spec fn first<A>(list: Seq<A>, limit: nat) -> Seq<A> {
    if list.len() <= limit {
        list
    } else {
        list.take(limit as int)
    }
}

/// The ids at which edges end but of which the node is not visible: the first `limit` of them.
pub open spec fn missing_ids(edges: Seq<EdgeRow>, visible: Seq<Seq<char>>, limit: nat) -> Seq<
    Seq<char>,
> {
    first(unseen(endpoints(edges), visible), limit)
}

/// Whether both ends of an edge are among some ids.
pub open spec fn connects(ids: Seq<Seq<char>>) -> spec_fn(EdgeRow) -> bool {
    |edge: EdgeRow| ids.contains(edge.source@) && ids.contains(edge.target@)
}

/// More edges leave the ids that were missing before where they are.
proof fn lemma_unseen_grows(ids: Seq<Seq<char>>, size: int, visible: Seq<Seq<char>>)
    requires
        0 <= size <= ids.len(),
    ensures
        unseen(ids.take(size), visible).is_prefix_of(unseen(ids, visible)),
    decreases ids.len(),
{
    if size == ids.len() {
        assert(ids.take(size) =~= ids);
        assert(unseen(ids, visible).subrange(0, unseen(ids, visible).len() as int) =~= unseen(
            ids,
            visible,
        ));
    } else {
        lemma_unseen_grows(ids.drop_last(), size, visible);
        assert(ids.drop_last().take(size) =~= ids.take(size));
        let part = unseen(ids.take(size), visible);
        let before = unseen(ids.drop_last(), visible);
        let whole = unseen(ids, visible);
        assert(part =~= before.subrange(0, part.len() as int));
        assert(whole.subrange(0, part.len() as int) =~= part);
    }
}

/// Each edge has two endpoints.
proof fn lemma_endpoints(edges: Seq<EdgeRow>, size: int)
    requires
        0 <= size <= edges.len(),
    ensures
        endpoints(edges).len() == 2 * edges.len(),
        endpoints(edges.take(size)) == endpoints(edges).take(2 * size),
    decreases edges.len(),
{
    if edges.len() > 0 {
        if size == edges.len() {
            lemma_endpoints(edges.drop_last(), 0);
            assert(edges.take(size) =~= edges);
            assert(endpoints(edges).take(2 * size) =~= endpoints(edges));
        } else {
            lemma_endpoints(edges.drop_last(), size);
            assert(edges.drop_last().take(size) =~= edges.take(size));
            assert(endpoints(edges).take(2 * size) =~= endpoints(edges.drop_last()).take(2 * size));
        }
    } else {
        assert(edges.take(size) =~= edges);
        assert(endpoints(edges).take(2 * size) =~= endpoints(edges));
    }
}

/// Once there are `limit` missing ids, later edges add none.
proof fn lemma_missing_ids_full(
    edges: Seq<EdgeRow>,
    size: int,
    visible: Seq<Seq<char>>,
    found: Seq<Seq<char>>,
    limit: nat,
)
    requires
        0 <= size <= endpoints(edges).len(),
        found == unseen(endpoints(edges).take(size), visible),
        found.len() == limit,
    ensures
        missing_ids(edges, visible, limit) == found,
{
    lemma_unseen_grows(endpoints(edges), size, visible);
    let whole = unseen(endpoints(edges), visible);
    assert(first(whole, limit) =~= found);
}

/// Collects ids for looking them up.
pub fn id_set(ids: &[String]) -> (set: StringHashSet)
    ensures
        set@ == text::texts(ids@).to_set(),
{
    let mut set = StringHashSet::new();
    let ghost views = text::texts(ids@);
    assert(views.take(0).to_set() =~= Set::empty());
    for i in 0..ids.len()
        invariant
            views == text::texts(ids@),
            set@ == views.take(i as int).to_set(),
    {
        proof {
            assert(views.take(i + 1) =~= views.take(i as int).push(ids@[i as int]@));
            views.take(i as int).lemma_push_to_set_commute(ids@[i as int]@);
        }
        set.insert(ids[i].clone());
    }
    assert(views.take(views.len() as int) =~= views);
    set
}

/// Adds an id to the missing ones, unless it is visible or among them already.
fn note_missing(
    id: &String,
    visible: &StringHashSet,
    known: &mut StringHashSet,
    missing: &mut Vec<String>,
    Ghost(ids): Ghost<Seq<Seq<char>>>,
    Ghost(visible_ids): Ghost<Seq<Seq<char>>>,
)
    requires
        visible@ == visible_ids.to_set(),
        old(known)@ == text::texts(old(missing)@).to_set(),
        text::texts(old(missing)@) == unseen(ids, visible_ids),
    ensures
        final(known)@ == text::texts(final(missing)@).to_set(),
        text::texts(final(missing)@) == unseen(ids.push(id@), visible_ids),
        final(missing)@.len() <= old(missing)@.len() + 1,
{
    proof {
        assert(ids.push(id@).drop_last() =~= ids);
        assert(visible@.contains(id@) == visible_ids.contains(id@));
        assert(known@.contains(id@) == text::texts(missing@).contains(id@));
    }
    if !visible.contains(id.as_str()) && !known.contains(id.as_str()) {
        let copy = id.clone();
        proof {
            assert(text::texts(missing@.push(copy)) =~= text::texts(missing@).push(id@));
            text::texts(missing@).lemma_push_to_set_commute(id@);
        }
        known.insert(id.clone());
        missing.push(copy);
    }
}

/// Finds the ids at which edges end but of which the node is not visible: the first `limit` of
/// them.
pub fn edge_endpoint_ids(edges: &[EdgeRow], visible_ids: &[String], limit: usize) -> (missing: Vec<
    String,
>)
    ensures
        text::texts(missing@) == missing_ids(edges@, text::texts(visible_ids@), limit as nat),
        lists_missing(
            text::texts(missing@),
            edges@,
            text::texts(visible_ids@),
            limit as nat,
        ),
{
    let visible = id_set(visible_ids);
    let mut known = StringHashSet::new();
    let mut missing: Vec<String> = Vec::new();
    let ghost visible_views = text::texts(visible_ids@);
    let ghost ids = endpoints(edges@);
    proof {
        assert(text::texts(missing@) =~= Seq::empty());
        assert(text::texts(missing@).to_set() =~= Set::empty());
        assert(ids.take(0) =~= Seq::empty());
    }
    for i in 0..edges.len()
        invariant
            ids == endpoints(edges@),
            visible_views == text::texts(visible_ids@),
            visible@ == visible_views.to_set(),
            known@ == text::texts(missing@).to_set(),
            text::texts(missing@) == unseen(ids.take(2 * i), visible_views),
            missing@.len() <= limit,
    {
        proof {
            lemma_endpoints(edges@, i as int);
            lemma_endpoints(edges@, i + 1);
            assert(edges@.take(i + 1).drop_last() =~= edges@.take(i as int));
            let edge = edges@[i as int];
            assert(endpoints(edges@.take(i + 1)) == ids.take(2 * i).push(edge.source@).push(
                edge.target@,
            ));
            assert(ids.take(2 * i + 1) =~= ids.take(2 * i).push(edge.source@)) by {
                assert(ids.take(2 * i + 1) =~= ids.take(2 * (i + 1)).take(2 * i + 1));
            }
            assert(ids.take(2 * i + 2) == ids.take(2 * i + 1).push(edge.target@));
        }
        if missing.len() >= limit {
            proof {
                law_first_unseen_ends_are_missing(edges@, visible_views, limit as nat);
                lemma_missing_ids_full(
                    edges@,
                    2 * i,
                    visible_views,
                    text::texts(missing@),
                    limit as nat,
                );
            }
            return missing;
        }
        note_missing(
            &edges[i].source,
            &visible,
            &mut known,
            &mut missing,
            Ghost(ids.take(2 * i)),
            Ghost(visible_views),
        );
        if missing.len() >= limit {
            proof {
                law_first_unseen_ends_are_missing(edges@, visible_views, limit as nat);
                lemma_missing_ids_full(
                    edges@,
                    2 * i + 1,
                    visible_views,
                    text::texts(missing@),
                    limit as nat,
                );
            }
            return missing;
        }
        note_missing(
            &edges[i].target,
            &visible,
            &mut known,
            &mut missing,
            Ghost(ids.take(2 * i + 1)),
            Ghost(visible_views),
        );
    }
    proof {
        law_first_unseen_ends_are_missing(edges@, visible_views, limit as nat);
        lemma_endpoints(edges@, 0);
        assert(ids.take(2 * (edges@.len() as int)) =~= ids);
    }
    missing
}

/// Keeps the edges of which both ends are among some ids, in their order.
pub fn retain_connected(edges: Vec<EdgeRow>, ids: &[String]) -> (kept: Vec<EdgeRow>)
    ensures
        kept@ == edges@.filter(connects(text::texts(ids@))),
        forall|edge: EdgeRow| #[trigger]
            kept@.contains(edge) <==> edges@.contains(edge) && text::texts(ids@).contains(
                edge.source@,
            ) && text::texts(ids@).contains(edge.target@),
{
    let visible = id_set(ids);
    let ghost views = text::texts(ids@);
    let ghost rows = edges@;
    let mut kept: Vec<EdgeRow> = Vec::new();
    proof {
        reveal(Seq::filter);
        assert(rows.take(0).filter(connects(views)) =~= Seq::empty());
    }
    for edge in it: edges.into_iter()
        invariant
            it.seq() == rows,
            views == text::texts(ids@),
            visible@ == views.to_set(),
            kept@ == rows.take(it.index() as int).filter(connects(views)),
    {
        proof {
            let done = rows.take(it.index() as int);
            assert(rows.take(it.index() + 1) =~= done.push(edge));
            done.lemma_filter_push(edge, connects(views));
            assert(visible@.contains(edge.source@) == views.contains(edge.source@));
            assert(visible@.contains(edge.target@) == views.contains(edge.target@));
        }
        if visible.contains(edge.source.as_str()) && visible.contains(edge.target.as_str()) {
            kept.push(edge);
        }
    }
    assert(rows.take(rows.len() as int) =~= rows);
    assert forall|edge: EdgeRow| #[trigger]
        kept@.contains(edge) <==> rows.contains(edge) && views.contains(edge.source@)
            && views.contains(edge.target@) by {
        law_kept_edges_connect(rows, views, edge);
    }
    kept
}

/// What the unseen ids are.
proof fn lemma_unseen(ids: Seq<Seq<char>>, visible: Seq<Seq<char>>)
    ensures
        unseen(ids, visible).no_duplicates(),
        forall|id: Seq<char>|
            #[trigger] unseen(ids, visible).contains(id) <==> ids.contains(id)
                && !visible.contains(id),
    decreases ids.len(),
{
    if ids.len() > 0 {
        let shorter = ids.drop_last();
        let last = ids.last();
        lemma_unseen(shorter, visible);
        let before = unseen(shorter, visible);
        let whole = unseen(ids, visible);
        assert forall|id: Seq<char>| #[trigger] whole.contains(id) <==> ids.contains(id)
            && !visible.contains(id) by {
            assert(shorter.push(last) =~= ids);
            assert(ids.contains(id) <==> shorter.contains(id) || id == last) by {
                if shorter.contains(id) {
                    let i = choose|i: int| 0 <= i < shorter.len() && shorter[i] == id;
                    assert(ids[i] == id);
                }
                assert(ids[ids.len() - 1] == last);
                if ids.contains(id) && id != last {
                    let i = choose|i: int| 0 <= i < ids.len() && ids[i] == id;
                    assert(shorter[i] == id);
                }
            }
            assert(before.contains(id) <==> shorter.contains(id) && !visible.contains(id));
            if !visible.contains(last) && !before.contains(last) {
                assert(whole == before.push(last));
                assert(whole[whole.len() - 1] == last);
                if before.contains(id) {
                    let i = choose|i: int| 0 <= i < before.len() && before[i] == id;
                    assert(whole[i] == id);
                }
                if whole.contains(id) && id != last {
                    let i = choose|i: int| 0 <= i < whole.len() && whole[i] == id;
                    assert(before[i] == id);
                }
            }
        }
    }
}

/// The ends of an edge are among the endpoints.
proof fn lemma_edge_has_endpoints(edges: Seq<EdgeRow>, index: int)
    requires
        0 <= index < edges.len(),
    ensures
        endpoints(edges).contains(edges[index].source@),
        endpoints(edges).contains(edges[index].target@),
{
    lemma_endpoints(edges, index + 1);
    let some = edges.take(index + 1);
    let ids = endpoints(edges);
    assert(some.last() == edges[index]);
    lemma_endpoints(some, 0);
    assert(endpoints(some)[2 * index] == edges[index].source@);
    assert(endpoints(some)[2 * index + 1] == edges[index].target@);
    assert(ids[2 * index] == edges[index].source@);
    assert(ids[2 * index + 1] == edges[index].target@);
}

/// An endpoint is an end of some edge.
pub proof fn lemma_endpoint_has_edge(edges: Seq<EdgeRow>, id: Seq<char>)
    requires
        endpoints(edges).contains(id),
    ensures
        exists|i: int|
            #![trigger edges[i]]
            0 <= i < edges.len() && (edges[i].source@ == id || edges[i].target@ == id),
    decreases edges.len(),
{
    let ids = endpoints(edges);
    let k = choose|k: int| 0 <= k < ids.len() && ids[k] == id;
    let shorter = edges.drop_last();
    if k < endpoints(shorter).len() {
        assert(endpoints(shorter)[k] == id);
        lemma_endpoint_has_edge(shorter, id);
        let i = choose|i: int|
            #![trigger shorter[i]]
            0 <= i < shorter.len() && (shorter[i].source@ == id || shorter[i].target@ == id);
        assert(edges[i] == shorter[i]);
    } else {
        assert(edges[edges.len() - 1] == edges.last());
    }
}

/// The missing ids are no more than the limit, no two are the same, and each is an end of some edge
/// and not visible. If they are fewer than the limit, there are no others.
pub proof fn law_missing_ids(edges: Seq<EdgeRow>, visible: Seq<Seq<char>>, limit: nat)
    ensures
        missing_ids(edges, visible, limit).len() <= limit,
        missing_ids(edges, visible, limit).no_duplicates(),
        forall|id: Seq<char>| #[trigger]
            missing_ids(edges, visible, limit).contains(id) ==> endpoints(edges).contains(id)
                && !visible.contains(id),
        missing_ids(edges, visible, limit).len() < limit ==> forall|id: Seq<char>|
            endpoints(edges).contains(id) && !visible.contains(id) ==> #[trigger] missing_ids(
                edges,
                visible,
                limit,
            ).contains(id),
{
    let whole = unseen(endpoints(edges), visible);
    let some = missing_ids(edges, visible, limit);
    lemma_unseen(endpoints(edges), visible);
    assert forall|id: Seq<char>| #[trigger] some.contains(id) implies whole.contains(id) by {
        let i = choose|i: int| 0 <= i < some.len() && some[i] == id;
        assert(whole[i] == id);
    }
    assert(some.len() < limit ==> some == whole);
}

/// The edges that are kept are the edges with both ends among the ids, and no others.
pub proof fn law_kept_edges_connect(edges: Seq<EdgeRow>, ids: Seq<Seq<char>>, edge: EdgeRow)
    ensures
        edges.filter(connects(ids)).contains(edge) <==> edges.contains(edge) && ids.contains(
            edge.source@,
        ) && ids.contains(edge.target@),
{
    let kept = edges.filter(connects(ids));
    if kept.contains(edge) {
        edges.lemma_filter_contains_rev(connects(ids), edge);
        let i = choose|i: int| 0 <= i < kept.len() && kept[i] == edge;
        edges.lemma_filter_pred(connects(ids), i);
    }
    if edges.contains(edge) && connects(ids)(edge) {
        let i = choose|i: int| 0 <= i < edges.len() && edges[i] == edge;
        edges.lemma_filter_contains(connects(ids), i);
    }
}

/// Filtering by what holds of all keeps all.
proof fn lemma_filter_keeps_all(edges: Seq<EdgeRow>, keep: spec_fn(EdgeRow) -> bool)
    requires
        forall|i: int| 0 <= i < edges.len() ==> keep(#[trigger] edges[i]),
    ensures
        edges.filter(keep) == edges,
    decreases edges.len(),
{
    reveal(Seq::filter);
    if edges.len() > 0 {
        lemma_filter_keeps_all(edges.drop_last(), keep);
        assert(keep(edges[edges.len() - 1]));
        assert(edges.drop_last().push(edges.last()) =~= edges);
    } else {
        assert(edges.filter(keep) =~= edges);
    }
}

/// If the limit lets all missing ids through, and the nodes of all of them are found, then no edge
/// is lost.
pub proof fn law_no_edge_is_lost(
    edges: Seq<EdgeRow>,
    visible: Seq<Seq<char>>,
    limit: nat,
    found: Seq<Seq<char>>,
)
    requires
        unseen(endpoints(edges), visible).len() <= limit,
        forall|id: Seq<char>| #[trigger]
            missing_ids(edges, visible, limit).contains(id) ==> found.contains(id),
    ensures
        edges.filter(connects(visible + found)) == edges,
{
    let all = visible + found;
    lemma_unseen(endpoints(edges), visible);
    assert forall|id: Seq<char>| visible.contains(id) || found.contains(id) implies all.contains(
        id,
    ) by {
        if visible.contains(id) {
            let i = choose|i: int| 0 <= i < visible.len() && visible[i] == id;
            assert(all[i] == id);
        } else {
            let i = choose|i: int| 0 <= i < found.len() && found[i] == id;
            assert(all[visible.len() + i] == id);
        }
    }
    assert forall|i: int| 0 <= i < edges.len() implies connects(all)(#[trigger] edges[i]) by {
        lemma_edge_has_endpoints(edges, i);
        assert(missing_ids(edges, visible, limit).contains(edges[i].source@) || visible.contains(
            edges[i].source@,
        ));
        assert(missing_ids(edges, visible, limit).contains(edges[i].target@) || visible.contains(
            edges[i].target@,
        ));
    }
    lemma_filter_keeps_all(edges, connects(all));
}

/// Whether an id is an end of one of the first `count` edges.
pub open spec fn is_end(edges: Seq<EdgeRow>, count: int, id: Seq<char>) -> bool {
    exists|i: int|
        #![trigger edges[i]]
        0 <= i < count && (edges[i].source@ == id || edges[i].target@ == id)
}

/// Whether a list holds the ends of edges that are not visible, no more than `limit` of them and each
/// once. An end that is neither visible nor in the list is left out because the list is full, and
/// all that is in the list was met before it: edge by edge, the source before the target.
pub open spec fn lists_missing(
    missing: Seq<Seq<char>>,
    edges: Seq<EdgeRow>,
    visible: Seq<Seq<char>>,
    limit: nat,
) -> bool {
    &&& missing.len() <= limit
    &&& missing.no_duplicates()
    &&& forall|id: Seq<char>| #[trigger]
        missing.contains(id) ==> is_end(edges, edges.len() as int, id) && !visible.contains(id)
    &&& forall|k: int|
        #![trigger edges[k]]
        0 <= k < edges.len() ==> {
            let source = edges[k].source@;
            let target = edges[k].target@;
            &&& visible.contains(source) || missing.contains(source) || (missing.len() == limit && (
            forall|id: Seq<char>| #[trigger] missing.contains(id) ==> is_end(edges, k, id)))
            &&& visible.contains(target) || missing.contains(target) || (missing.len() == limit && (
            forall|id: Seq<char>| #[trigger]
                missing.contains(id) ==> is_end(edges, k, id) || id == source))
        }
}

/// An endpoint that is neither visible nor missing comes after all that are missing.
proof fn lemma_left_out(edges: Seq<EdgeRow>, visible: Seq<Seq<char>>, limit: nat, place: int)
    requires
        0 <= place < endpoints(edges).len(),
        !visible.contains(endpoints(edges)[place]),
        !missing_ids(edges, visible, limit).contains(endpoints(edges)[place]),
    ensures
        missing_ids(edges, visible, limit).len() == limit,
        forall|id: Seq<char>| #[trigger]
            missing_ids(edges, visible, limit).contains(id) ==> endpoints(edges).take(
                place,
            ).contains(id),
{
    let ids = endpoints(edges);
    let whole = unseen(ids, visible);
    let missing = missing_ids(edges, visible, limit);
    let before = unseen(ids.take(place), visible);
    let with = unseen(ids.take(place + 1), visible);
    lemma_unseen_grows(ids, place, visible);
    lemma_unseen_grows(ids, place + 1, visible);
    assert(ids.take(place + 1).drop_last() =~= ids.take(place));
    lemma_unseen(ids.take(place), visible);
    lemma_unseen(ids.take(place + 1), visible);
    assert(ids.take(place + 1).contains(ids[place])) by {
        assert(ids.take(place + 1)[place] == ids[place]);
    }
    assert(with.contains(ids[place]));
    let at = choose|at: int| 0 <= at < with.len() && with[at] == ids[place];
    assert(whole[at] == with[at]);
    if whole.len() <= limit {
        assert(missing == whole);
        assert(missing.contains(ids[place]));
    }
    if at < limit {
        assert(missing[at] == ids[place]);
    }
    assert(before.len() >= limit);
    assert forall|id: Seq<char>| #[trigger] missing.contains(id) implies ids.take(place).contains(
        id,
    ) by {
        let i = choose|i: int| 0 <= i < missing.len() && missing[i] == id;
        assert(before[i] == whole[i]);
        assert(before.contains(id));
    }
}

/// An endpoint of the first edges is an end of one of them.
proof fn lemma_end_of_first(edges: Seq<EdgeRow>, count: int, id: Seq<char>)
    requires
        0 <= count <= edges.len(),
        endpoints(edges).take(2 * count).contains(id),
    ensures
        is_end(edges, count, id),
{
    lemma_endpoints(edges, count);
    let some = edges.take(count);
    lemma_endpoint_has_edge(some, id);
    let i = choose|i: int|
        #![trigger some[i]]
        0 <= i < some.len() && (some[i].source@ == id || some[i].target@ == id);
    assert(edges[i] == some[i]);
}

/// The missing ids are the first ends of edges that are not visible.
pub proof fn law_first_unseen_ends_are_missing(
    edges: Seq<EdgeRow>,
    visible: Seq<Seq<char>>,
    limit: nat,
)
    ensures
        lists_missing(missing_ids(edges, visible, limit), edges, visible, limit),
{
    let ids = endpoints(edges);
    let missing = missing_ids(edges, visible, limit);
    law_missing_ids(edges, visible, limit);
    lemma_endpoints(edges, 0);
    assert forall|id: Seq<char>| #[trigger] missing.contains(id) implies is_end(
        edges,
        edges.len() as int,
        id,
    ) by {
        assert(ids.take(2 * (edges.len() as int)) =~= ids);
        lemma_end_of_first(edges, edges.len() as int, id);
    }
    assert forall|k: int| #![trigger edges[k]] 0 <= k < edges.len() implies {
        let source = edges[k].source@;
        let target = edges[k].target@;
        &&& visible.contains(source) || missing.contains(source) || (missing.len() == limit && (
        forall|id: Seq<char>| #[trigger] missing.contains(id) ==> is_end(edges, k, id)))
        &&& visible.contains(target) || missing.contains(target) || (missing.len() == limit && (
        forall|id: Seq<char>| #[trigger]
            missing.contains(id) ==> is_end(edges, k, id) || id == source))
    } by {
        let source = edges[k].source@;
        let target = edges[k].target@;
        lemma_edge_has_endpoints(edges, k);
        lemma_endpoint_places(edges, k);
        if !visible.contains(source) && !missing.contains(source) {
            lemma_left_out(edges, visible, limit, 2 * k);
            assert forall|id: Seq<char>| #[trigger] missing.contains(id) implies is_end(
                edges,
                k,
                id,
            ) by {
                lemma_end_of_first(edges, k, id);
            }
        }
        if !visible.contains(target) && !missing.contains(target) {
            lemma_left_out(edges, visible, limit, 2 * k + 1);
            assert forall|id: Seq<char>| #[trigger] missing.contains(id) implies is_end(
                edges,
                k,
                id,
            ) || id == source by {
                let part = ids.take(2 * k + 1);
                let i = choose|i: int| 0 <= i < part.len() && part[i] == id;
                if i < 2 * k {
                    assert(ids.take(2 * k)[i] == id);
                    lemma_end_of_first(edges, k, id);
                }
            }
        }
    }
}

/// Where the ends of an edge stand among the endpoints.
proof fn lemma_endpoint_places(edges: Seq<EdgeRow>, index: int)
    requires
        0 <= index < edges.len(),
    ensures
        endpoints(edges).len() == 2 * edges.len(),
        endpoints(edges)[2 * index] == edges[index].source@,
        endpoints(edges)[2 * index + 1] == edges[index].target@,
{
    lemma_endpoints(edges, index + 1);
    let some = edges.take(index + 1);
    assert(some.last() == edges[index]);
    lemma_endpoints(some, 0);
    lemma_endpoints(some.drop_last(), 0);
    assert(endpoints(some)[2 * index] == edges[index].source@);
    assert(endpoints(some)[2 * index + 1] == edges[index].target@);
    assert(endpoints(edges).take(2 * (index + 1))[2 * index] == edges[index].source@);
    assert(endpoints(edges).take(2 * (index + 1))[2 * index + 1] == edges[index].target@);
}

/// Each missing id is an end of some edge, and not visible. Each end of each edge, of whatever kind,
/// is visible or missing, unless there are already as many missing ids as the limit says.
pub proof fn law_every_unseen_end_counts(
    edges: Seq<EdgeRow>,
    visible: Seq<Seq<char>>,
    limit: nat,
)
    ensures
        forall|k: int|
            #![trigger edges[k]]
            0 <= k < edges.len() ==> {
                let missing = missing_ids(edges, visible, limit);
                &&& visible.contains(edges[k].source@) || missing.contains(edges[k].source@)
                    || missing.len() >= limit
                &&& visible.contains(edges[k].target@) || missing.contains(edges[k].target@)
                    || missing.len() >= limit
            },
        forall|id: Seq<char>| #[trigger]
            missing_ids(edges, visible, limit).contains(id) ==> !visible.contains(id) && exists|
                k: int,
            |
                0 <= k < edges.len() && ((#[trigger] edges[k]).source@ == id || edges[k].target@
                    == id),
{
    law_first_unseen_ends_are_missing(edges, visible, limit);
    assert forall|id: Seq<char>| #[trigger]
        missing_ids(edges, visible, limit).contains(id) implies !visible.contains(id) && exists|
        k: int,
    |
        0 <= k < edges.len() && ((#[trigger] edges[k]).source@ == id || edges[k].target@ == id) by {
        assert(is_end(edges, edges.len() as int, id));
    }
}

} // verus!
