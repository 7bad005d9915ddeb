//! Properties that relate the board's operations, proved over their views.
use vstd::prelude::*;

use crate::board::{
    board_has_id, created_lanes, index_of_id, lane_has_id, lanes_well_formed,
    lemma_create_keeps_well_formed, lemma_move_keeps_well_formed, lemma_replace_keeps_well_formed,
    moved_lanes, pos_before_move, position_of_id, replaced_lanes, total_cards, valid_pos,
};
use crate::card::CardView;

verus! {

/// Adding up the lanes after one lane is replaced.
proof fn lemma_total_update(lanes: Seq<Seq<CardView>>, i: int, lane: Seq<CardView>)
    requires
        0 <= i < lanes.len(),
    ensures
        total_cards(lanes.update(i, lane)) == total_cards(lanes) - lanes[i].len() + lane.len(),
    decreases lanes.len(),
{
    let u = lanes.update(i, lane);
    if i == lanes.len() - 1 {
        assert(u.drop_last() =~= lanes.drop_last());
    } else {
        assert(u.drop_last() =~= lanes.drop_last().update(i, lane));
        lemma_total_update(lanes.drop_last(), i, lane);
    }
}

/// On a well-formed board, a card that the board holds stands in exactly
/// one lane, once, and records that lane as its own.
pub proof fn lemma_card_in_exactly_one_lane(lanes: Seq<Seq<CardView>>, id: Seq<char>)
    requires
        lanes_well_formed(lanes),
        board_has_id(lanes, id),
    ensures
        ({
            let p = position_of_id(lanes, id);
            &&& valid_pos(lanes, p.0, p.1)
            &&& lanes[p.0][p.1].id == id
            &&& lanes[p.0][p.1].lane_id == p.0
            &&& forall|i: int, k: int|
                valid_pos(lanes, i, k) && (#[trigger] lanes[i][k]).id == id ==> i == p.0 && k
                    == p.1
        }),
{
}

/// Moving a card between two different lanes takes one card from the source
/// lane and gives one to the destination; the other lanes, the total number
/// of cards and the set of identifiers on the board stay as they were.
pub proof fn lemma_move_between_lanes(
    lanes: Seq<Seq<CardView>>,
    id: Seq<char>,
    from: int,
    to: int,
)
    requires
        lanes_well_formed(lanes),
        0 <= from < lanes.len(),
        0 <= to < lanes.len(),
        from != to,
        lane_has_id(lanes[from], id),
    ensures
        ({
            let m = moved_lanes(lanes, id, from, to);
            &&& m.len() == lanes.len()
            &&& m[from].len() == lanes[from].len() - 1
            &&& m[to].len() == lanes[to].len() + 1
            &&& forall|i: int| 0 <= i < lanes.len() && i != from && i != to ==> m[i] == lanes[i]
            &&& total_cards(m) == total_cards(lanes)
            &&& !lane_has_id(m[from], id)
            &&& m[to].last().id == id
            &&& m[to].last().lane_id == to
            &&& lanes_well_formed(m)
        }),
{
    let j = index_of_id(lanes[from], id);
    let removed = lanes.update(from, lanes[from].remove(j));
    let m = moved_lanes(lanes, id, from, to);
    lemma_total_update(lanes, from, lanes[from].remove(j));
    lemma_total_update(removed, to, removed[to].push(lanes[from][j].with_lane(to as nat)));
    lemma_move_keeps_well_formed(lanes, id, from, to);
    assert(!lane_has_id(m[from], id)) by {
        if lane_has_id(m[from], id) {
            let k = choose|k: int| 0 <= k < m[from].len() && (#[trigger] m[from][k]).id == id;
            let k0 = if k < j { k } else { k + 1 };
            assert(lanes[from][k0].id == lanes[from][j].id);
        }
    }
}

/// Moving a card to the lane that holds it keeps the number of cards and
/// the identifiers of that lane, and makes the card the lane's last.
pub proof fn lemma_move_within_lane(lanes: Seq<Seq<CardView>>, id: Seq<char>, lane: int)
    requires
        lanes_well_formed(lanes),
        0 <= lane < lanes.len(),
        lane_has_id(lanes[lane], id),
    ensures
        ({
            let m = moved_lanes(lanes, id, lane, lane);
            &&& m.len() == lanes.len()
            &&& m[lane].len() == lanes[lane].len()
            &&& forall|i: int| 0 <= i < lanes.len() && i != lane ==> m[i] == lanes[i]
            &&& total_cards(m) == total_cards(lanes)
            &&& m[lane].last() == lanes[lane][index_of_id(lanes[lane], id)]
            &&& m[lane].last().id == id
            &&& forall|x: Seq<char>| lane_has_id(m[lane], x) <==> lane_has_id(lanes[lane], x)
            &&& lanes_well_formed(m)
        }),
{
    let j = index_of_id(lanes[lane], id);
    let l = lanes[lane];
    let m = moved_lanes(lanes, id, lane, lane);
    assert(m[lane] == l.remove(j).push(l[j].with_lane(lane as nat)));
    assert(l[j].with_lane(lane as nat) == l[j]);
    lemma_total_update(lanes, lane, m[lane]);
    assert(lanes.update(lane, m[lane]) =~= m);
    lemma_move_keeps_well_formed(lanes, id, lane, lane);
    assert forall|x: Seq<char>| lane_has_id(m[lane], x) <==> lane_has_id(l, x) by {
        if lane_has_id(m[lane], x) {
            let k = choose|k: int| 0 <= k < m[lane].len() && (#[trigger] m[lane][k]).id == x;
            let k0 = if k == l.len() - 1 {
                j
            } else if k < j {
                k
            } else {
                k + 1
            };
            assert(l[k0].id == x);
        }
        if lane_has_id(l, x) {
            let k = choose|k: int| 0 <= k < l.len() && (#[trigger] l[k]).id == x;
            let k1 = if k == j {
                l.len() - 1
            } else if k < j {
                k
            } else {
                k - 1
            };
            assert(m[lane][k1].id == x);
        }
    }
}

/// A move neither adds an identifier to the board nor removes one.
pub proof fn lemma_move_keeps_ids(lanes: Seq<Seq<CardView>>, id: Seq<char>, from: int, to: int)
    requires
        lanes_well_formed(lanes),
        0 <= from < lanes.len(),
        0 <= to < lanes.len(),
        lane_has_id(lanes[from], id),
    ensures
        forall|x: Seq<char>|
            board_has_id(moved_lanes(lanes, id, from, to), x) <==> board_has_id(lanes, x),
{
    let j = index_of_id(lanes[from], id);
    let m = moved_lanes(lanes, id, from, to);
    assert forall|x: Seq<char>| board_has_id(m, x) <==> board_has_id(lanes, x) by {
        if board_has_id(m, x) {
            let (i, k) = choose|i: int, k: int| valid_pos(m, i, k) && (#[trigger] m[i][k]).id == x;
            let p = pos_before_move(lanes, id, from, to, i, k);
            assert(lanes[p.0][p.1].id == x);
        }
        if board_has_id(lanes, x) {
            let (i, k) = choose|i: int, k: int|
                valid_pos(lanes, i, k) && (#[trigger] lanes[i][k]).id == x;
            if i == from && k == j {
                assert(m[to][m[to].len() - 1].id == x);
            } else if i == from && k > j {
                assert(m[from][k - 1].id == x);
            } else {
                assert(m[i][k].id == x);
            }
        }
    }
}

/// A move request as the board receives it: card identifier, source lane,
/// destination lane.
pub open spec fn apply_move(lanes: Seq<Seq<CardView>>, req: (Seq<char>, int, int)) -> Seq<
    Seq<CardView>,
> {
    if 0 <= req.1 < lanes.len() && 0 <= req.2 < lanes.len() && lane_has_id(lanes[req.1], req.0) {
        moved_lanes(lanes, req.0, req.1, req.2)
    } else {
        lanes
    }
}

/// The lanes after a sequence of move requests, each made while a card is
/// being dragged and applied as `move_card` applies it: a request that names
/// a missing lane, or no card of its source lane, changes nothing.
pub open spec fn apply_moves(lanes: Seq<Seq<CardView>>, reqs: Seq<(Seq<char>, int, int)>) -> Seq<
    Seq<CardView>,
>
    decreases reqs.len(),
{
    if reqs.len() == 0 {
        lanes
    } else {
        apply_move(apply_moves(lanes, reqs.drop_last()), reqs.last())
    }
}

/// Any sequence of moves keeps the board well formed, its number of lanes,
/// its total number of cards and the set of identifiers that it holds.
pub proof fn lemma_moves_keep_total(lanes: Seq<Seq<CardView>>, reqs: Seq<(Seq<char>, int, int)>)
    requires
        lanes_well_formed(lanes),
    ensures
        lanes_well_formed(apply_moves(lanes, reqs)),
        apply_moves(lanes, reqs).len() == lanes.len(),
        total_cards(apply_moves(lanes, reqs)) == total_cards(lanes),
        forall|x: Seq<char>| board_has_id(apply_moves(lanes, reqs), x) <==> board_has_id(lanes, x),
    decreases reqs.len(),
{
    if reqs.len() > 0 {
        lemma_moves_keep_total(lanes, reqs.drop_last());
        let before = apply_moves(lanes, reqs.drop_last());
        let req = reqs.last();
        if 0 <= req.1 < before.len() && 0 <= req.2 < before.len() && lane_has_id(
            before[req.1],
            req.0,
        ) {
            lemma_move_keeps_ids(before, req.0, req.1, req.2);
            if req.1 == req.2 {
                lemma_move_within_lane(before, req.0, req.1);
            } else {
                lemma_move_between_lanes(before, req.0, req.1, req.2);
            }
        }
    }
}

/// Creating a card adds one card to its lane, under an identifier that the
/// board did not hold, and changes no other lane.
pub proof fn lemma_create_adds_one(lanes: Seq<Seq<CardView>>, lane: int, card: CardView)
    requires
        lanes_well_formed(lanes),
        0 <= lane < lanes.len(),
        card.lane_id == lane,
        !board_has_id(lanes, card.id),
    ensures
        ({
            let c = created_lanes(lanes, lane, card);
            &&& c.len() == lanes.len()
            &&& c[lane].len() == lanes[lane].len() + 1
            &&& forall|i: int| 0 <= i < lanes.len() && i != lane ==> c[i] == lanes[i]
            &&& total_cards(c) == total_cards(lanes) + 1
            &&& board_has_id(c, card.id)
            &&& lanes_well_formed(c)
        }),
{
    let c = created_lanes(lanes, lane, card);
    lemma_total_update(lanes, lane, c[lane]);
    lemma_create_keeps_well_formed(lanes, lane, card);
    assert(c[lane][lanes[lane].len() as int] == card);
}

/// Editing the title of a card changes that field of that card alone.
pub proof fn lemma_edit_title_only(lanes: Seq<Seq<CardView>>, id: Seq<char>, title: Seq<char>)
    requires
        lanes_well_formed(lanes),
        board_has_id(lanes, id),
    ensures
        ({
            let p = position_of_id(lanes, id);
            let old_card = lanes[p.0][p.1];
            let e = replaced_lanes(lanes, p, old_card.with_title(title));
            &&& e.len() == lanes.len()
            &&& e[p.0][p.1].title == title
            &&& e[p.0][p.1].id == old_card.id
            &&& e[p.0][p.1].lane_id == old_card.lane_id
            &&& e[p.0][p.1].description == old_card.description
            &&& forall|i: int| 0 <= i < lanes.len() ==> (#[trigger] e[i]).len() == lanes[i].len()
            &&& forall|i: int, k: int|
                valid_pos(lanes, i, k) && (i, k) != p ==> (#[trigger] e[i][k]) == lanes[i][k]
            &&& lanes_well_formed(e)
        }),
{
    let p = position_of_id(lanes, id);
    lemma_replace_keeps_well_formed(lanes, p, lanes[p.0][p.1].with_title(title));
}

/// Editing the description of a card changes that field of that card alone.
pub proof fn lemma_edit_description_only(
    lanes: Seq<Seq<CardView>>,
    id: Seq<char>,
    description: Seq<char>,
)
    requires
        lanes_well_formed(lanes),
        board_has_id(lanes, id),
    ensures
        ({
            let p = position_of_id(lanes, id);
            let old_card = lanes[p.0][p.1];
            let e = replaced_lanes(lanes, p, old_card.with_description(description));
            &&& e.len() == lanes.len()
            &&& e[p.0][p.1].description == Some(description)
            &&& e[p.0][p.1].id == old_card.id
            &&& e[p.0][p.1].lane_id == old_card.lane_id
            &&& e[p.0][p.1].title == old_card.title
            &&& forall|i: int| 0 <= i < lanes.len() ==> (#[trigger] e[i]).len() == lanes[i].len()
            &&& forall|i: int, k: int|
                valid_pos(lanes, i, k) && (i, k) != p ==> (#[trigger] e[i][k]) == lanes[i][k]
            &&& lanes_well_formed(e)
        }),
{
    let p = position_of_id(lanes, id);
    lemma_replace_keeps_well_formed(lanes, p, lanes[p.0][p.1].with_description(description));
}

} // verus!
