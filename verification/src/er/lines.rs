//! How the relationship lines of a layout meet the boxes they join: each
//! placed relationship is a relationship of the diagram, in order, whose
//! two ends name boxes; in one row it runs from the right side of the left
//! box to the left side of the right one, otherwise straight down from the
//! upper box to the lower one.
use super::database::{shown_name, Entity, ErDatabase, Relationship};
use super::layout::{
    er_fits, first_shown, lemma_first_shown, lemma_placed_bounds, lemma_placed_valid, layout_ok, placed_ok,
    placed_relationships, rel_placed_ok, spacing_spec, ErLayoutResult, PositionedEntity, PositionedRelationship, BOX_SPACING,
};
use vstd::prelude::*;

verus! {

/// Relationship line `p` joins box `f` to box `t`, as its fields say.
pub open spec fn joins(p: PositionedRelationship, f: PositionedEntity, t: PositionedEntity) -> bool {
    &&& p.horizontal == (f.y == t.y)
    &&& p.horizontal ==> {
        &&& p.from_y == p.to_y
        &&& f.x <= t.x ==> p.from_x == f.x + f.width && p.to_x == t.x
        &&& t.x < f.x ==> p.from_x == t.x + t.width && p.to_x == f.x
    }
    &&& !p.horizontal ==> {
        &&& p.from_x == p.to_x
        &&& f.y < t.y ==> p.from_x == f.x + f.width / 2 && p.from_y == f.y + f.height && p.to_y == t.y
        &&& t.y < f.y ==> p.from_x == t.x + t.width / 2 && p.from_y == t.y + t.height && p.to_y == f.y
    }
}

/// Each placed relationship line joins the first box named by its source
/// to the first box named by its target, as `joins` says.
pub proof fn lemma_relationship_geometry(db: &ErDatabase, res: ErLayoutResult, k: int) -> (ft: (int, int))
    requires
        er_fits(db),
        layout_ok(db, res, spacing_spec(db, BOX_SPACING as int)),
        0 <= k < res.relationships.len(),
    ensures
        0 <= ft.0 < res.entities.len(),
        0 <= ft.1 < res.entities.len(),
        res.entities@[ft.0].name@ == res.relationships@[k].from_entity@,
        res.entities@[ft.1].name@ == res.relationships@[k].to_entity@,
        forall|j: int| 0 <= j < ft.0 ==> (#[trigger] res.entities@[j]).name@ != res.relationships@[k].from_entity@,
        forall|j: int| 0 <= j < ft.1 ==> (#[trigger] res.entities@[j]).name@ != res.relationships@[k].to_entity@,
        joins(res.relationships@[k], res.entities@[ft.0], res.entities@[ft.1]),
{
    let es = db.entity_seq();
    let rels = db.relationship_seq();
    let sp = spacing_spec(db, BOX_SPACING as int);
    let placed = placed_relationships(es, rels);
    lemma_placed_valid(es, rels, k);
    let (j, f, t) = placed[k];
    assert(rel_placed_ok(res.relationships@[k], rels[j], res.entities@[f], res.entities@[t]));
    lemma_placed_from(es, rels, k);
    let ps = res.entities@;
    assert(placed_ok(ps[f], es, f, sp));
    assert(placed_ok(ps[t], es, t, sp));
    lemma_placed_bounds(es, ps, sp, f);
    lemma_placed_bounds(es, ps, sp, t);
    lemma_first_shown(es, rels[j].from@);
    lemma_first_shown(es, rels[j].to@);
    assert forall|q: int| 0 <= q < f implies (#[trigger] res.entities@[q]).name@ != res.relationships@[k].from_entity@ by {
        assert(placed_ok(ps[q], es, q, sp));
        assert(shown_name(es[q]) != rels[j].from@);
    }
    assert forall|q: int| 0 <= q < t implies (#[trigger] res.entities@[q]).name@ != res.relationships@[k].to_entity@ by {
        assert(placed_ok(ps[q], es, q, sp));
        assert(shown_name(es[q]) != rels[j].to@);
    }
    (f, t)
}

/// An entry of `placed_relationships` names its relationship's ends by
/// their first boxes.
proof fn lemma_placed_from(es: Seq<Entity>, rels: Seq<Relationship>, k: int)
    requires
        0 <= k < placed_relationships(es, rels).len(),
    ensures
        first_shown(es, rels[placed_relationships(es, rels)[k].0].from@) == Some(placed_relationships(es, rels)[k].1),
        first_shown(es, rels[placed_relationships(es, rels)[k].0].to@) == Some(placed_relationships(es, rels)[k].2),
    decreases rels.len(),
{
    let prev = placed_relationships(es, rels.drop_last());
    lemma_placed_valid(es, rels, k);
    if k < prev.len() {
        lemma_placed_from(es, rels.drop_last(), k);
        lemma_placed_valid(es, rels.drop_last(), k);
        assert(rels.drop_last()[prev[k].0] == rels[prev[k].0]);
    }
}

/// Placed relationship `p` carries the ends, cardinalities and label of
/// relationship `r`.
pub open spec fn copies(p: PositionedRelationship, r: Relationship) -> bool {
    &&& p.from_entity@ == r.from@
    &&& p.to_entity@ == r.to@
    &&& p.from_cardinality == r.from_cardinality
    &&& p.to_cardinality == r.to_cardinality
    &&& (p.label is Some <==> r.label is Some)
    &&& (p.label is Some ==> p.label->0@ == r.label->0@)
}

/// Whether some box of the layout carries the name `name`.
pub open spec fn names_box(res: ErLayoutResult, name: Seq<char>) -> bool {
    exists|i: int| 0 <= i < res.entities.len() && (#[trigger] res.entities@[i]).name@ == name
}

/// The placed relationships are the relationships `idx` of the diagram, in
/// order: exactly those whose two ends name boxes.
pub open spec fn listed(db: &ErDatabase, res: ErLayoutResult, idx: Seq<int>) -> bool {
    let rels = db.relationship_seq();
    &&& idx.len() == res.relationships.len()
    &&& forall|k: int|
        0 <= k < idx.len() ==> 0 <= #[trigger] idx[k] < rels.len() && copies(res.relationships@[k], rels[idx[k]])
    &&& forall|k1: int, k2: int| 0 <= k1 < k2 < idx.len() ==> #[trigger] idx[k1] < #[trigger] idx[k2]
    &&& forall|j: int|
        0 <= j < rels.len() ==> (names_box(res, (#[trigger] rels[j]).from@) && names_box(res, rels[j].to@) <==> exists|
            k: int,
        | 0 <= k < idx.len() && #[trigger] idx[k] == j)
}

proof fn lemma_placed_order(es: Seq<Entity>, rels: Seq<Relationship>)
    ensures
        ({
            let pl = placed_relationships(es, rels);
            &&& forall|k: int| 0 <= k < pl.len() ==> 0 <= #[trigger] pl[k].0 < rels.len()
            &&& forall|k1: int, k2: int| 0 <= k1 < k2 < pl.len() ==> #[trigger] pl[k1].0 < #[trigger] pl[k2].0
            &&& forall|j: int|
                0 <= j < rels.len() ==> (first_shown(es, (#[trigger] rels[j]).from@) is Some && first_shown(
                    es,
                    rels[j].to@,
                ) is Some <==> exists|k: int| 0 <= k < pl.len() && #[trigger] pl[k].0 == j)
        }),
    decreases rels.len(),
{
    if rels.len() > 0 {
        let d = rels.drop_last();
        lemma_placed_order(es, d);
        let prev = placed_relationships(es, d);
        let pl = placed_relationships(es, rels);
        let j0 = rels.len() - 1;
        let both = first_shown(es, rels[j0].from@) is Some && first_shown(es, rels[j0].to@) is Some;
        assert forall|k: int| 0 <= k < prev.len() implies pl[k] == prev[k] by {}
        if both {
            assert(pl.len() == prev.len() + 1);
            assert(pl[prev.len() as int].0 == j0);
        } else {
            assert(pl == prev);
        }
        assert forall|j: int| 0 <= j < rels.len() implies (first_shown(es, (#[trigger] rels[j]).from@) is Some
            && first_shown(es, rels[j].to@) is Some <==> exists|k: int| 0 <= k < pl.len() && #[trigger] pl[k].0 == j) by {
            if j < j0 {
                assert(d[j] == rels[j]);
                if exists|k: int| 0 <= k < pl.len() && #[trigger] pl[k].0 == j {
                    let k = choose|k: int| 0 <= k < pl.len() && #[trigger] pl[k].0 == j;
                    if k < prev.len() {
                        assert(prev[k].0 == j);
                    }
                }
                if exists|k: int| 0 <= k < prev.len() && #[trigger] prev[k].0 == j {
                    let k = choose|k: int| 0 <= k < prev.len() && #[trigger] prev[k].0 == j;
                    assert(pl[k].0 == j);
                }
            } else {
                if exists|k: int| 0 <= k < pl.len() && #[trigger] pl[k].0 == j {
                    let k = choose|k: int| 0 <= k < pl.len() && #[trigger] pl[k].0 == j;
                    if k < prev.len() {
                        assert(prev[k].0 < d.len());
                    }
                }
            }
        }
    }
}

/// The relationship lines of a layout are the relationships of the diagram
/// whose two ends name boxes, in the diagram's order, each carrying its
/// relationship's ends, cardinalities and label.
pub proof fn lemma_relationships_listed(db: &ErDatabase, res: ErLayoutResult)
    requires
        layout_ok(db, res, spacing_spec(db, BOX_SPACING as int)),
    ensures
        exists|idx: Seq<int>| #[trigger] listed(db, res, idx),
{
    let es = db.entity_seq();
    let rels = db.relationship_seq();
    let sp = spacing_spec(db, BOX_SPACING as int);
    let pl = placed_relationships(es, rels);
    lemma_placed_order(es, rels);
    let idx = pl.map_values(|p: (int, int, int)| p.0);
    assert forall|k: int| 0 <= k < idx.len() implies 0 <= #[trigger] idx[k] < rels.len() && copies(
        res.relationships@[k],
        rels[idx[k]],
    ) by {
        lemma_placed_valid(es, rels, k);
        assert(rel_placed_ok(res.relationships@[k], rels[pl[k].0], res.entities@[pl[k].1], res.entities@[pl[k].2]));
    }
    assert forall|k1: int, k2: int| 0 <= k1 < k2 < idx.len() implies #[trigger] idx[k1] < #[trigger] idx[k2] by {
        assert(pl[k1].0 < pl[k2].0);
    }
    assert forall|name: Seq<char>| #[trigger] names_box(res, name) <==> first_shown(es, name) is Some by {
        lemma_first_shown(es, name);
        if names_box(res, name) {
            let i = choose|i: int| 0 <= i < res.entities.len() && (#[trigger] res.entities@[i]).name@ == name;
            assert(placed_ok(res.entities@[i], es, i, sp));
        }
        if first_shown(es, name) is Some {
            let i = first_shown(es, name)->0;
            assert(placed_ok(res.entities@[i], es, i, sp));
        }
    }
    assert forall|j: int| 0 <= j < rels.len() implies (names_box(res, (#[trigger] rels[j]).from@) && names_box(
        res,
        rels[j].to@,
    ) <==> exists|k: int| 0 <= k < idx.len() && #[trigger] idx[k] == j) by {
        if exists|k: int| 0 <= k < pl.len() && #[trigger] pl[k].0 == j {
            let k = choose|k: int| 0 <= k < pl.len() && #[trigger] pl[k].0 == j;
            assert(idx[k] == j);
        }
        if exists|k: int| 0 <= k < idx.len() && #[trigger] idx[k] == j {
            let k = choose|k: int| 0 <= k < idx.len() && #[trigger] idx[k] == j;
            assert(pl[k].0 == j);
        }
    }
    assert(listed(db, res, idx));
}

} // verus!
