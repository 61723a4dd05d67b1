//! The entity merger: the core algorithm. It walks one line's codepoint
//! range with a cursor, consuming the collected entities in order and
//! emitting text and link runs.
//!
//! The merge plan is the spec-level heart of this module: a sequence of
//! [`PlacedRun`]s that still name the spans and entities they came from.
//! That extra information is what the reconstruction and overlap lemmas
//! speak about; the executable [`merge`] then substitutes the text in and
//! returns plain [`Run`]s.

use crate::model::valid_entity;
use crate::model::Entity;
use crate::model::EntityView;
use crate::model::Run;
use crate::model::RunModel;
use crate::offsets::slice_codepoints;
use vstd::prelude::*;

verus! {

/// A run before the text is substituted in: either a span of the line's
/// text, or a consumed entity.
pub enum PlacedRun {
    Text { start: int, end: int },
    Link { entity: EntityView },
}

/// The run an element of the merge plan stands for.
pub open spec fn run_of_placed(text: Seq<char>, p: PlacedRun) -> RunModel {
    match p {
        PlacedRun::Text { start, end } => RunModel::Text(text.subrange(start, end)),
        PlacedRun::Link { entity } => RunModel::Link { url: entity.url, label: entity.label },
    }
}

/// The span of source text an element of the merge plan consumed: a text
/// run consumed its own span, a link run the span of its entity.
pub open spec fn placed_source(text: Seq<char>, p: PlacedRun) -> Seq<char> {
    match p {
        PlacedRun::Text { start, end } => text.subrange(start, end),
        PlacedRun::Link { entity } => text.subrange(entity.start, entity.end),
    }
}

/// The concatenated source spans of a merge plan.
pub open spec fn placed_sources(text: Seq<char>, placed: Seq<PlacedRun>) -> Seq<char>
    decreases placed.len(),
{
    if placed.len() == 0 {
        Seq::empty()
    } else {
        placed_source(text, placed[0]) + placed_sources(text, placed.drop_first())
    }
}

/// The merge plan for one line. The cursor starts at the line's start; an
/// entity starting before the cursor overlaps one already consumed and is
/// skipped whole — no run, no cursor movement — so each codepoint is
/// consumed by at most one entity. Any gap before an entity becomes a
/// text run, the entity a link run with the cursor jumping to its end,
/// and whatever is left after the last entity a final text run.
pub open spec fn merge_placed(ents: Seq<EntityView>, cursor: int, end: int) -> Seq<PlacedRun>
    decreases ents.len(),
{
    if ents.len() == 0 {
        if cursor < end {
            seq![PlacedRun::Text { start: cursor, end }]
        } else {
            Seq::empty()
        }
    } else {
        let e = ents[0];
        if e.start < cursor {
            merge_placed(ents.drop_first(), cursor, end)
        } else if e.start > cursor {
            seq![PlacedRun::Text { start: cursor, end: e.start }, PlacedRun::Link { entity: e }]
                + merge_placed(ents.drop_first(), e.end, end)
        } else {
            seq![PlacedRun::Link { entity: e }] + merge_placed(ents.drop_first(), e.end, end)
        }
    }
}

/// The entities whose span starts inside `[a, b)`; only those take part
/// in the merge of that line.
pub open spec fn selected_entities(ents: Seq<EntityView>, a: int, b: int) -> Seq<EntityView> {
    ents.filter(|e: EntityView| a <= e.start < b)
}

/// The runs a merge plan stands for, with the text substituted in.
pub open spec fn run_models(text: Seq<char>, placed: Seq<PlacedRun>) -> Seq<RunModel> {
    placed.map_values(|p: PlacedRun| run_of_placed(text, p))
}

/// The merged runs of one line `[a, b)` of `text` under `ents`.
pub open spec fn merge_runs(text: Seq<char>, ents: Seq<EntityView>, a: int, b: int) -> Seq<
    RunModel,
> {
    run_models(text, merge_placed(selected_entities(ents, a, b), a, b))
}

proof fn lemma_filter_empty<A>(pred: spec_fn(A) -> bool)
    ensures
        Seq::<A>::empty().filter(pred) == Seq::<A>::empty(),
{
    reveal_with_fuel(Seq::filter, 2);
}

proof fn lemma_filter_singleton<A>(x: A, pred: spec_fn(A) -> bool)
    ensures
        seq![x].filter(pred) == if pred(x) {
            seq![x]
        } else {
            Seq::<A>::empty()
        },
{
    reveal_with_fuel(Seq::filter, 2);
    let s = seq![x];
    assert(s.drop_last() =~= Seq::<A>::empty());
    assert(s.last() == x);
    if pred(x) {
        assert(s.filter(pred) =~= seq![x]);
    } else {
        assert(s.filter(pred) =~= Seq::<A>::empty());
    }
}

/// Filtering takes the head separately from the rest.
proof fn lemma_filter_head<A>(s: Seq<A>, pred: spec_fn(A) -> bool)
    requires
        s.len() > 0,
    ensures
        s.filter(pred) == (if pred(s[0]) {
            seq![s[0]]
        } else {
            Seq::<A>::empty()
        }) + s.drop_first().filter(pred),
{
    assert(s =~= seq![s[0]] + s.drop_first());
    Seq::<A>::filter_distributes_over_add(seq![s[0]], s.drop_first(), pred);
    lemma_filter_singleton(s[0], pred);
    if pred(s[0]) {
    } else {
        assert(Seq::<A>::empty() + s.drop_first().filter(pred) =~= s.drop_first().filter(pred));
    }
}

/// Source spans concatenate over concatenated merge plans.
proof fn lemma_sources_concat(text: Seq<char>, p1: Seq<PlacedRun>, p2: Seq<PlacedRun>)
    ensures
        placed_sources(text, p1 + p2) == placed_sources(text, p1) + placed_sources(text, p2),
    decreases p1.len(),
{
    if p1.len() == 0 {
        assert(p1 + p2 =~= p2);
        assert(placed_sources(text, p1) + placed_sources(text, p2) =~= placed_sources(text, p2));
    } else {
        assert((p1 + p2).len() > 0);
        assert((p1 + p2)[0] == p1[0]);
        assert((p1 + p2).drop_first() =~= p1.drop_first() + p2);
        lemma_sources_concat(text, p1.drop_first(), p2);
        assert(placed_sources(text, p1 + p2) =~= placed_sources(text, p1) + placed_sources(
            text,
            p2,
        ));
    }
}

/// Reconstruction: for a line `[a, b)` whose entities all lie fully
/// inside the line, are sorted and pairwise non-overlapping, the source
/// spans of the merged runs — each text run verbatim, each link run the
/// span of its entity — concatenate to exactly the line's text.
pub proof fn lemma_reconstruction(text: Seq<char>, ents: Seq<EntityView>, a: int, b: int)
    requires
        0 <= a <= b <= text.len(),
        forall|i: int|
            0 <= i < ents.len() ==> a <= (#[trigger] ents[i]).start && ents[i].start < ents[i].end
                && ents[i].end <= b,
        forall|i: int, j: int|
            0 <= i < j < ents.len() ==> (#[trigger] ents[i]).end <= (#[trigger] ents[j]).start,
    ensures
        placed_sources(text, merge_placed(ents, a, b)) == text.subrange(a, b),
    decreases ents.len(),
{
    if ents.len() == 0 {
        if a < b {
            let placed = merge_placed(ents, a, b);
            assert(placed =~= seq![PlacedRun::Text { start: a, end: b }]);
            assert(placed.drop_first() =~= Seq::<PlacedRun>::empty());
            assert(placed_sources(text, Seq::<PlacedRun>::empty()) =~= Seq::<char>::empty());
            assert(placed_sources(text, placed) == placed_source(text, placed[0])
                + placed_sources(text, placed.drop_first()));
            assert(placed_sources(text, placed) =~= text.subrange(a, b));
        } else {
            assert(text.subrange(a, a) =~= Seq::<char>::empty());
        }
    } else {
        let e = ents[0];
        let rest = ents.drop_first();
        assert(forall|i: int|
            0 <= i < rest.len() ==> e.end <= (#[trigger] rest[i]).start && rest[i].start
                < rest[i].end && rest[i].end <= b);
        lemma_reconstruction(text, rest, e.end, b);
        let tail = merge_placed(rest, e.end, b);
        if e.start > a {
            let head = seq![
                PlacedRun::Text { start: a, end: e.start },
                PlacedRun::Link { entity: e },
            ];
            lemma_sources_concat(text, head, tail);
            let link_only = seq![PlacedRun::Link { entity: e }];
            assert(head.drop_first() =~= link_only);
            assert(link_only.drop_first() =~= Seq::<PlacedRun>::empty());
            assert(placed_sources(text, Seq::<PlacedRun>::empty()) =~= Seq::<char>::empty());
            assert(placed_sources(text, link_only) == placed_source(text, link_only[0])
                + placed_sources(text, link_only.drop_first()));
            assert(placed_sources(text, link_only) =~= text.subrange(e.start, e.end));
            assert(placed_sources(text, head) == placed_source(text, head[0]) + placed_sources(
                text,
                head.drop_first(),
            ));
            assert(placed_sources(text, head) =~= text.subrange(a, e.start) + text.subrange(
                e.start,
                e.end,
            ));
            assert(text.subrange(a, e.start) + text.subrange(e.start, e.end) + text.subrange(
                e.end,
                b,
            ) =~= text.subrange(a, b));
        } else {
            let head = seq![PlacedRun::Link { entity: e }];
            lemma_sources_concat(text, head, tail);
            assert(head.drop_first() =~= Seq::<PlacedRun>::empty());
            assert(placed_sources(text, Seq::<PlacedRun>::empty()) =~= Seq::<char>::empty());
            assert(placed_sources(text, head) == placed_source(text, head[0]) + placed_sources(
                text,
                head.drop_first(),
            ));
            assert(placed_sources(text, head) =~= text.subrange(e.start, e.end));
            assert(text.subrange(a, e.end) + text.subrange(e.end, b) =~= text.subrange(a, b));
        }
    }
}

/// A line without entities merges to a single text run holding the whole
/// line, or to nothing when the line is empty.
pub proof fn lemma_merge_runs_no_entities(text: Seq<char>, a: int, b: int)
    requires
        0 <= a <= b <= text.len(),
    ensures
        merge_runs(text, Seq::empty(), a, b) == if a < b {
            seq![RunModel::Text(text.subrange(a, b))]
        } else {
            Seq::<RunModel>::empty()
        },
{
    let pred = (|e: EntityView| a <= e.start < b);
    lemma_filter_empty(pred);
    assert(selected_entities(Seq::empty(), a, b) == Seq::<EntityView>::empty());
    if a < b {
        let placed = merge_placed(Seq::<EntityView>::empty(), a, b);
        assert(placed == seq![PlacedRun::Text { start: a, end: b }]);
        assert(run_models(text, placed) =~= seq![RunModel::Text(text.subrange(a, b))]);
    } else {
        assert(merge_placed(Seq::<EntityView>::empty(), a, b) =~= Seq::<PlacedRun>::empty());
        assert(run_models(text, Seq::<PlacedRun>::empty()) =~= Seq::<RunModel>::empty());
    }
}

/// Overlap safety: of two entities sharing the same start, exactly one is
/// consumed — the merge plan is the same as if the later one were not
/// there at all, so no run is emitted for it and no text is duplicated.
pub proof fn lemma_overlap_single_link(ents: Seq<EntityView>, k: int, cursor: int, end: int)
    requires
        0 <= k,
        k + 1 < ents.len(),
        ents[k].start == ents[k + 1].start,
        ents[k].start < ents[k].end,
    ensures
        merge_placed(ents, cursor, end) == merge_placed(ents.remove(k + 1), cursor, end),
    decreases k,
{
    let e0 = ents[0];
    let shorter = ents.remove(k + 1);
    assert(shorter.len() == ents.len() - 1);
    if k == 0 {
        let e1 = ents[1];
        assert(shorter[0] == e0);
        assert(shorter.drop_first() =~= ents.drop_first().drop_first());
        assert(ents.drop_first()[0] == e1);
        if e0.start < cursor {
            assert(merge_placed(ents, cursor, end) == merge_placed(
                ents.drop_first(),
                cursor,
                end,
            ));
            assert(ents.drop_first().len() > 0);
            assert(merge_placed(ents.drop_first(), cursor, end) == merge_placed(
                ents.drop_first().drop_first(),
                cursor,
                end,
            ));
            assert(merge_placed(shorter, cursor, end) == merge_placed(
                shorter.drop_first(),
                cursor,
                end,
            ));
        } else {
            assert(e1.start < e0.end);
            assert(merge_placed(ents.drop_first(), e0.end, end) == merge_placed(
                ents.drop_first().drop_first(),
                e0.end,
                end,
            ));
        }
    } else {
        assert(shorter[0] == e0);
        assert(shorter.drop_first() =~= ents.drop_first().remove(k));
        assert(ents.drop_first()[k - 1] == ents[k]);
        assert(ents.drop_first()[k] == ents[k + 1]);
        if e0.start < cursor {
            lemma_overlap_single_link(ents.drop_first(), k - 1, cursor, end);
        } else {
            lemma_overlap_single_link(ents.drop_first(), k - 1, e0.end, end);
        }
    }
}

/// Merges one line `[start, end)` of `text`: of the entities whose start
/// lies in the line, taken in order, each is either skipped (it starts
/// before the cursor, overlapping an entity already consumed) or becomes
/// a link run, with the text between entities and after the last one
/// emitted as text runs.
pub fn merge(text: &str, entities: &Vec<Entity>, start: usize, end: usize) -> (r: Vec<Run>)
    requires
        start <= end,
        end as int <= text@.len(),
        forall|i: int|
            0 <= i < entities.deep_view().len() ==> valid_entity(
                #[trigger] entities.deep_view()[i],
                text@.len() as int,
            ),
    ensures
        r.deep_view() == merge_runs(text@, entities.deep_view(), start as int, end as int),
{
    let ghost evs = entities.deep_view();
    let ghost pred = (|e: EntityView| start as int <= e.start < end as int);
    let ghost sel_full = selected_entities(evs, start as int, end as int);
    let mut runs: Vec<Run> = Vec::new();
    let ghost mut placed: Seq<PlacedRun> = Seq::empty();
    let mut cursor: usize = start;
    let mut i: usize = 0;
    let n = entities.len();
    proof {
        assert(evs.skip(0) =~= evs);
        assert(run_models(text@, placed) =~= Seq::<RunModel>::empty());
        assert(runs.deep_view() =~= Seq::<RunModel>::empty());
    }
    while i < n
        invariant
            i <= n,
            n == entities@.len(),
            start <= end,
            end as int <= text@.len(),
            cursor as int <= text@.len(),
            evs == entities.deep_view(),
            pred == (|e: EntityView| start as int <= e.start < end as int),
            sel_full == selected_entities(evs, start as int, end as int),
            forall|j: int|
                0 <= j < evs.len() ==> valid_entity(#[trigger] evs[j], text@.len() as int),
            placed + merge_placed(
                evs.skip(i as int).filter(pred),
                cursor as int,
                end as int,
            ) == merge_placed(sel_full, start as int, end as int),
            runs.deep_view() == run_models(text@, placed),
        decreases n - i,
    {
        let e_start = entities[i].start;
        let e_end = entities[i].end;
        proof {
            assert(evs.skip(i as int).len() > 0);
            assert(evs.skip(i as int)[0] == evs[i as int]);
            assert(evs.skip(i as int).drop_first() =~= evs.skip(i as int + 1));
            lemma_filter_head(evs.skip(i as int), pred);
            assert(evs[i as int].start == e_start as int);
            assert(evs[i as int].end == e_end as int);
            assert(valid_entity(evs[i as int], text@.len() as int));
        }
        if e_start >= start && e_start < end {
            proof {
                assert(pred(evs[i as int]));
                assert(evs.skip(i as int).filter(pred) =~= seq![evs[i as int]] + evs.skip(
                    i as int + 1,
                ).filter(pred));
                assert(evs.skip(i as int).filter(pred).len() > 0);
                assert(evs.skip(i as int).filter(pred)[0] == evs[i as int]);
                assert(evs.skip(i as int).filter(pred).drop_first() =~= evs.skip(
                    i as int + 1,
                ).filter(pred));
            }
            if e_start < cursor {
                // Overlaps an entity already consumed: skipped whole.
                proof {
                    assert(merge_placed(
                        evs.skip(i as int).filter(pred),
                        cursor as int,
                        end as int,
                    ) == merge_placed(
                        evs.skip(i as int + 1).filter(pred),
                        cursor as int,
                        end as int,
                    ));
                }
            } else {
                let ghost prev_placed = placed;
                let ghost prev_runs = runs.deep_view();
                if e_start > cursor {
                    let gap = slice_codepoints(text, cursor, e_start);
                    runs.push(Run::Text(gap));
                    proof {
                        placed = placed.push(
                            PlacedRun::Text { start: cursor as int, end: e_start as int },
                        );
                        assert(runs.deep_view() =~= prev_runs.push(RunModel::Text(gap@)));
                        assert(run_models(text@, placed) =~= run_models(text@, prev_placed).push(
                            RunModel::Text(text@.subrange(cursor as int, e_start as int)),
                        ));
                    }
                }
                let ghost mid_placed = placed;
                let ghost mid_runs = runs.deep_view();
                let url = entities[i].url.clone();
                let label = entities[i].label.clone();
                runs.push(Run::Link { url, label });
                proof {
                    let e = evs[i as int];
                    placed = placed.push(PlacedRun::Link { entity: e });
                    assert(runs.deep_view() =~= mid_runs.push(
                        RunModel::Link { url: e.url, label: e.label },
                    ));
                    assert(run_models(text@, placed) =~= run_models(text@, mid_placed).push(
                        RunModel::Link { url: e.url, label: e.label },
                    ));
                    if e_start > cursor {
                        assert(merge_placed(
                            evs.skip(i as int).filter(pred),
                            cursor as int,
                            end as int,
                        ) == seq![
                            PlacedRun::Text { start: cursor as int, end: e.start },
                            PlacedRun::Link { entity: e },
                        ] + merge_placed(
                            evs.skip(i as int + 1).filter(pred),
                            e.end,
                            end as int,
                        ));
                        assert(placed =~= prev_placed + seq![
                            PlacedRun::Text { start: cursor as int, end: e.start },
                            PlacedRun::Link { entity: e },
                        ]);
                        assert(placed + merge_placed(
                            evs.skip(i as int + 1).filter(pred),
                            e.end,
                            end as int,
                        ) =~= merge_placed(sel_full, start as int, end as int));
                    } else {
                        assert(merge_placed(
                            evs.skip(i as int).filter(pred),
                            cursor as int,
                            end as int,
                        ) == seq![PlacedRun::Link { entity: e }] + merge_placed(
                            evs.skip(i as int + 1).filter(pred),
                            e.end,
                            end as int,
                        ));
                        assert(placed =~= prev_placed + seq![PlacedRun::Link { entity: e }]);
                        assert(placed + merge_placed(
                            evs.skip(i as int + 1).filter(pred),
                            e.end,
                            end as int,
                        ) =~= merge_placed(sel_full, start as int, end as int));
                    }
                }
                cursor = e_end;
            }
        } else {
            proof {
                assert(!pred(evs[i as int]));
                assert(evs.skip(i as int).filter(pred) =~= evs.skip(i as int + 1).filter(pred));
            }
        }
        i = i + 1;
    }
    proof {
        assert(evs.skip(n as int) =~= Seq::<EntityView>::empty());
        lemma_filter_empty(pred);
    }
    if cursor < end {
        let ghost prev_placed = placed;
        let ghost prev_runs = runs.deep_view();
        let tail = slice_codepoints(text, cursor, end);
        runs.push(Run::Text(tail));
        proof {
            placed = placed.push(PlacedRun::Text { start: cursor as int, end: end as int });
            assert(runs.deep_view() =~= prev_runs.push(RunModel::Text(tail@)));
            assert(run_models(text@, placed) =~= run_models(text@, prev_placed).push(
                RunModel::Text(text@.subrange(cursor as int, end as int)),
            ));
            assert(merge_placed(Seq::<EntityView>::empty(), cursor as int, end as int) == seq![
                PlacedRun::Text { start: cursor as int, end: end as int },
            ]);
            assert(placed =~= merge_placed(sel_full, start as int, end as int));
        }
    } else {
        proof {
            assert(merge_placed(Seq::<EntityView>::empty(), cursor as int, end as int)
                =~= Seq::<PlacedRun>::empty());
            assert(placed =~= merge_placed(sel_full, start as int, end as int));
        }
    }
    runs
}

} // verus!
