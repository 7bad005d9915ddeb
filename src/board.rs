use vstd::prelude::*;

use crate::card::{CardDef, CardView};
use crate::filler::{fake_name, fake_words, join_words, random_card_id, MAX_WORDS, MIN_WORDS};

verus! {

broadcast use vstd::string::to_string_from_display_ensures_for_str;

/// Mathematical view of a board: lane names, the cards of each lane in
/// display order, and the card being dragged, if any.
pub struct BoardView {
    pub names: Seq<Seq<char>>,
    pub lanes: Seq<Seq<CardView>>,
    pub dragged: Option<CardView>,
}

pub open spec fn valid_pos(lanes: Seq<Seq<CardView>>, i: int, j: int) -> bool {
    0 <= i < lanes.len() && 0 <= j < lanes[i].len()
}

/// Every card records the lane that holds it.
pub open spec fn lanes_tagged(lanes: Seq<Seq<CardView>>) -> bool {
    forall|i: int, j: int| valid_pos(lanes, i, j) ==> (#[trigger] lanes[i][j]).lane_id == i
}

/// No identifier occurs at two positions of the board.
pub open spec fn ids_unique(lanes: Seq<Seq<CardView>>) -> bool {
    forall|i1: int, j1: int, i2: int, j2: int|
        valid_pos(lanes, i1, j1) && valid_pos(lanes, i2, j2) && (#[trigger] lanes[i1][j1]).id == (
        #[trigger] lanes[i2][j2]).id ==> i1 == i2 && j1 == j2
}

pub open spec fn lanes_well_formed(lanes: Seq<Seq<CardView>>) -> bool {
    lanes_tagged(lanes) && ids_unique(lanes)
}

pub open spec fn lane_has_id(lane: Seq<CardView>, id: Seq<char>) -> bool {
    exists|j: int| 0 <= j < lane.len() && (#[trigger] lane[j]).id == id
}

pub open spec fn board_has_id(lanes: Seq<Seq<CardView>>, id: Seq<char>) -> bool {
    exists|i: int, j: int| valid_pos(lanes, i, j) && (#[trigger] lanes[i][j]).id == id
}

/// The position in a lane of the card with the given identifier.
pub open spec fn index_of_id(lane: Seq<CardView>, id: Seq<char>) -> int {
    choose|j: int| 0 <= j < lane.len() && (#[trigger] lane[j]).id == id
}

/// The position on the board of the card with the given identifier.
pub open spec fn position_of_id(lanes: Seq<Seq<CardView>>, id: Seq<char>) -> (int, int) {
    choose|i: int, j: int| valid_pos(lanes, i, j) && (#[trigger] lanes[i][j]).id == id
}

/// Number of cards on the board.
pub open spec fn total_cards(lanes: Seq<Seq<CardView>>) -> nat
    decreases lanes.len(),
{
    if lanes.len() == 0 {
        0
    } else {
        total_cards(lanes.drop_last()) + lanes.last().len()
    }
}

/// The lanes after the card `id` leaves lane `from` and is appended, tagged
/// with its new lane, to the end of lane `to`.
pub open spec fn moved_lanes(lanes: Seq<Seq<CardView>>, id: Seq<char>, from: int, to: int) -> Seq<
    Seq<CardView>,
> {
    let j = index_of_id(lanes[from], id);
    let removed = lanes.update(from, lanes[from].remove(j));
    removed.update(to, removed[to].push(lanes[from][j].with_lane(to as nat)))
}

/// The lanes after a new card is appended to lane `lane`.
pub open spec fn created_lanes(lanes: Seq<Seq<CardView>>, lane: int, card: CardView) -> Seq<
    Seq<CardView>,
> {
    lanes.update(lane, lanes[lane].push(card))
}

/// The lanes after the card at position `p` is replaced by `card`.
pub open spec fn replaced_lanes(lanes: Seq<Seq<CardView>>, p: (int, int), card: CardView) -> Seq<
    Seq<CardView>,
> {
    lanes.update(p.0, lanes[p.0].update(p.1, card))
}

/// Why a move request changed nothing.
#[derive(Clone, Copy, Debug, PartialEq, Eq, Structural)]
pub enum MoveError {
    /// No card was being dragged.
    NoDraggedCard,
    /// The source or the destination is not a lane of the board.
    LaneOutOfRange,
    /// The source lane holds no card with the given identifier.
    CardNotInLane,
}

/// Why a card was not created.
#[derive(Clone, Copy, Debug, PartialEq, Eq, Structural)]
pub enum CreateError {
    LaneOutOfRange,
    /// A card with the same identifier is already on the board.
    DuplicateId,
}

/// What a move request returns on a board.
pub open spec fn move_outcome(b: BoardView, id: Seq<char>, from: int, to: int) -> Result<
    (),
    MoveError,
> {
    if b.dragged is None {
        Err(MoveError::NoDraggedCard)
    } else if !(0 <= from < b.lanes.len() && 0 <= to < b.lanes.len()) {
        Err(MoveError::LaneOutOfRange)
    } else if !lane_has_id(b.lanes[from], id) {
        Err(MoveError::CardNotInLane)
    } else {
        Ok(())
    }
}

/// What a creation request returns on a board.
pub open spec fn create_outcome(b: BoardView, lane: int, id: Seq<char>) -> Result<(), CreateError> {
    if !(0 <= lane < b.lanes.len()) {
        Err(CreateError::LaneOutOfRange)
    } else if board_has_id(b.lanes, id) {
        Err(CreateError::DuplicateId)
    } else {
        Ok(())
    }
}

/// Where the card now at position `(i, k)` of `moved_lanes` stood before.
pub open spec fn pos_before_move(
    lanes: Seq<Seq<CardView>>,
    id: Seq<char>,
    from: int,
    to: int,
    i: int,
    k: int,
) -> (int, int) {
    let j = index_of_id(lanes[from], id);
    let moved = moved_lanes(lanes, id, from, to);
    if i == to && k == moved[to].len() - 1 {
        (from, j)
    } else if i == from && k >= j {
        (from, k + 1)
    } else {
        (i, k)
    }
}

/// Moving a card keeps every card in exactly one lane, tagged with that lane.
pub proof fn lemma_move_keeps_well_formed(
    lanes: Seq<Seq<CardView>>,
    id: Seq<char>,
    from: int,
    to: int,
)
    requires
        lanes_well_formed(lanes),
        0 <= from < lanes.len(),
        0 <= to < lanes.len(),
        lane_has_id(lanes[from], id),
    ensures
        lanes_well_formed(moved_lanes(lanes, id, from, to)),
        moved_lanes(lanes, id, from, to).len() == lanes.len(),
{
    let j = index_of_id(lanes[from], id);
    let moved = moved_lanes(lanes, id, from, to);
    assert forall|i: int, k: int| valid_pos(moved, i, k) implies {
        let p = pos_before_move(lanes, id, from, to, i, k);
        &&& valid_pos(lanes, p.0, p.1)
        &&& #[trigger] moved[i][k] == if i == to && k == moved[to].len() - 1 {
            lanes[p.0][p.1].with_lane(to as nat)
        } else {
            lanes[p.0][p.1]
        }
    } by {}
    assert forall|i: int, k: int| valid_pos(moved, i, k) implies (#[trigger] moved[i][k]).lane_id
        == i by {
        let p = pos_before_move(lanes, id, from, to, i, k);
        assert(lanes[p.0][p.1].lane_id == p.0);
    }
    assert forall|i1: int, k1: int, i2: int, k2: int|
        valid_pos(moved, i1, k1) && valid_pos(moved, i2, k2) && (#[trigger] moved[i1][k1]).id == (
        #[trigger] moved[i2][k2]).id implies i1 == i2 && k1 == k2 by {
        let p1 = pos_before_move(lanes, id, from, to, i1, k1);
        let p2 = pos_before_move(lanes, id, from, to, i2, k2);
        assert(lanes[p1.0][p1.1].id == lanes[p2.0][p2.1].id);
        assert(p1 == p2);
    }
}

/// Appending a card whose identifier is new, tagged with its lane, keeps every
/// card in exactly one lane.
pub proof fn lemma_create_keeps_well_formed(lanes: Seq<Seq<CardView>>, lane: int, card: CardView)
    requires
        lanes_well_formed(lanes),
        0 <= lane < lanes.len(),
        card.lane_id == lane,
        !board_has_id(lanes, card.id),
    ensures
        lanes_well_formed(created_lanes(lanes, lane, card)),
        created_lanes(lanes, lane, card).len() == lanes.len(),
{
    let c = created_lanes(lanes, lane, card);
    assert forall|i: int, k: int| valid_pos(c, i, k) && !(i == lane && k == lanes[lane].len())
        implies valid_pos(lanes, i, k) && #[trigger] c[i][k] == lanes[i][k] by {}
    assert forall|i1: int, k1: int, i2: int, k2: int|
        valid_pos(c, i1, k1) && valid_pos(c, i2, k2) && (#[trigger] c[i1][k1]).id == (
        #[trigger] c[i2][k2]).id implies i1 == i2 && k1 == k2 by {
        if i1 == lane && k1 == lanes[lane].len() {
            if !(i2 == lane && k2 == lanes[lane].len()) {
                assert(lanes[i2][k2].id == card.id);
            }
        } else if i2 == lane && k2 == lanes[lane].len() {
            assert(lanes[i1][k1].id == card.id);
        } else {
            assert(lanes[i1][k1].id == lanes[i2][k2].id);
        }
    }
}

/// Replacing a card by one with the same identifier and lane keeps every card
/// in exactly one lane.
pub proof fn lemma_replace_keeps_well_formed(
    lanes: Seq<Seq<CardView>>,
    p: (int, int),
    card: CardView,
)
    requires
        lanes_well_formed(lanes),
        valid_pos(lanes, p.0, p.1),
        card.id == lanes[p.0][p.1].id,
        card.lane_id == lanes[p.0][p.1].lane_id,
    ensures
        lanes_well_formed(replaced_lanes(lanes, p, card)),
        replaced_lanes(lanes, p, card).len() == lanes.len(),
{
    let c = replaced_lanes(lanes, p, card);
    assert forall|i: int, k: int| valid_pos(c, i, k) implies valid_pos(lanes, i, k) && (
    #[trigger] c[i][k]).id == lanes[i][k].id && c[i][k].lane_id == lanes[i][k].lane_id by {}
    assert forall|i1: int, k1: int, i2: int, k2: int|
        valid_pos(c, i1, k1) && valid_pos(c, i2, k2) && (#[trigger] c[i1][k1]).id == (
        #[trigger] c[i2][k2]).id implies i1 == i2 && k1 == k2 by {
        assert(lanes[i1][k1].id == lanes[i2][k2].id);
    }
}

/// Under unique identifiers, the position of an identifier is the one
/// position that holds it.
proof fn lemma_position_unique(lanes: Seq<Seq<CardView>>, i: int, j: int)
    requires
        ids_unique(lanes),
        valid_pos(lanes, i, j),
    ensures
        board_has_id(lanes, lanes[i][j].id),
        position_of_id(lanes, lanes[i][j].id) == (i, j),
{
    let id = lanes[i][j].id;
    assert(valid_pos(lanes, i, j) && lanes[i][j].id == id);
    let p = position_of_id(lanes, id);
    assert(lanes[p.0][p.1].id == lanes[i][j].id);
}

pub open spec fn default_lane_names() -> Seq<Seq<char>> {
    seq!["Todo"@, "In Progress"@, "Done"@]
}

/// A board of fixed lanes. It owns every card, and records the card that is
/// being dragged between a drag start and the drop that ends it.
pub struct KanbanBoard {
    names: Vec<String>,
    lanes: Vec<Vec<CardDef>>,
    dragged: Option<CardDef>,
}

pub open spec fn lane_view(lane: Vec<CardDef>) -> Seq<CardView> {
    lane@.map_values(|c: CardDef| c@)
}

impl View for KanbanBoard {
    type V = BoardView;

    closed spec fn view(&self) -> BoardView {
        BoardView {
            names: self.names@.map_values(|s: String| s@),
            lanes: self.lanes@.map_values(|l: Vec<CardDef>| lane_view(l)),
            dragged: match self.dragged {
                Some(c) => Some(c@),
                None => None,
            },
        }
    }
}

/// Position of the first card of `lane` whose identifier is `id`.
fn find_in_lane(lane: &Vec<CardDef>, id: &String) -> (r: Option<usize>)
    ensures
        match r {
            Some(j) => j < lane@.len() && lane@[j as int].id@ == id@,
            None => !lane_has_id(lane_view(*lane), id@),
        },
{
    let mut j: usize = 0;
    while j < lane.len()
        invariant
            j <= lane@.len(),
            forall|k: int| 0 <= k < j ==> lane@[k].id@ != id@,
        decreases lane@.len() - j,
    {
        if lane[j].id == *id {
            return Some(j);
        }
        j = j + 1;
    }
    assert(!lane_has_id(lane_view(*lane), id@)) by {
        assert forall|k: int| 0 <= k < lane_view(*lane).len() implies (#[trigger] lane_view(
            *lane,
        )[k]).id != id@ by {
            assert(lane@[k].id@ != id@);
        }
    }
    None
}

impl KanbanBoard {
    /// Every card is in exactly one lane, and records that lane; there is one
    /// name per lane.
    pub open spec fn wf(&self) -> bool {
        &&& self@.names.len() == self@.lanes.len()
        &&& lanes_well_formed(self@.lanes)
    }

    /// A board with the lanes "Todo", "In Progress" and "Done", all empty,
    /// and nothing being dragged.
    pub fn new() -> (r: KanbanBoard)
        ensures
            r.wf(),
            r@.names == default_lane_names(),
            r@.lanes == seq![Seq::<CardView>::empty(), Seq::<CardView>::empty(), Seq::<CardView>::empty()],
            r@.dragged is None,
    {
        let names: Vec<String> = vec!["Todo".to_string(), "In Progress".to_string(), "Done".to_string()];
        let lanes: Vec<Vec<CardDef>> = vec![Vec::new(), Vec::new(), Vec::new()];
        let r = KanbanBoard { names, lanes, dragged: None };
        assert(r@.names =~= default_lane_names());
        assert forall|i: int| 0 <= i < 3 implies #[trigger] r@.lanes[i] =~= Seq::<
            CardView,
        >::empty() by {}
        assert(r@.lanes =~= seq![Seq::<CardView>::empty(), Seq::<CardView>::empty(), Seq::<CardView>::empty()]);
        r
    }

    pub fn lane_count(&self) -> (r: usize)
        ensures
            r == self@.lanes.len(),
    {
        self.lanes.len()
    }

    /// Position of the card `id`, if the board holds it.
    fn locate(&self, id: &String) -> (r: Option<(usize, usize)>)
        ensures
            match r {
                Some((i, j)) => valid_pos(self@.lanes, i as int, j as int) && self@.lanes[i as int][j as int].id
                    == id@,
                None => !board_has_id(self@.lanes, id@),
            },
    {
        let mut i: usize = 0;
        while i < self.lanes.len()
            invariant
                i <= self@.lanes.len(),
                self@.lanes.len() == self.lanes@.len(),
                forall|a: int, b: int|
                    0 <= a < i && valid_pos(self@.lanes, a, b) ==> (#[trigger] self@.lanes[a][b]).id
                        != id@,
            decreases self.lanes@.len() - i,
        {
            assert(lane_view(self.lanes@[i as int]) == self@.lanes[i as int]);
            match find_in_lane(&self.lanes[i], id) {
                Some(j) => {
                    return Some((i, j));
                },
                None => {},
            }
            i = i + 1;
        }
        None
    }

    /// Whether any lane holds a card with identifier `id`.
    pub fn contains_card(&self, id: &String) -> (r: bool)
        ensures
            r == board_has_id(self@.lanes, id@),
    {
        self.locate(id).is_some()
    }

    /// Appends a new card to the end of lane `lane`. Refused, with no change,
    /// when there is no such lane or when the identifier is already used.
    pub fn create_card(&mut self, lane: usize, id: String, title: String, description: String) -> (r:
        Result<(), CreateError>)
        requires
            old(self).wf(),
        ensures
            final(self).wf(),
            r == create_outcome(old(self)@, lane as int, id@),
            r is Ok ==> final(self)@.lanes == created_lanes(
                old(self)@.lanes,
                lane as int,
                CardView {
                    lane_id: lane as nat,
                    id: id@,
                    title: title@,
                    description: Some(description@),
                },
            ),
            r is Err ==> final(self)@.lanes == old(self)@.lanes,
            final(self)@.names == old(self)@.names,
            final(self)@.dragged == old(self)@.dragged,
    {
        if lane >= self.lanes.len() {
            return Err(CreateError::LaneOutOfRange);
        }
        if self.contains_card(&id) {
            return Err(CreateError::DuplicateId);
        }
        let ghost ov = self@;
        let card = CardDef { lane_id: lane, id, title, description: Some(description) };
        let ghost cv = card@;
        proof {
            lemma_create_keeps_well_formed(ov.lanes, lane as int, cv);
        }
        self.lanes[lane].push(card);
        proof {
            let c = created_lanes(ov.lanes, lane as int, cv);
            assert forall|i: int| 0 <= i < c.len() implies #[trigger] self@.lanes[i] =~= c[i] by {}
            assert(self@.lanes =~= c);
        }
        Ok(())
    }

    /// The "New task" action: a card with a random identifier, a random name
    /// as title and a few random words as description, appended to lane
    /// `lane`. Whatever the random values, the outcome is that of
    /// `create_card` on them.
    pub fn new_task(&mut self, lane: usize) -> (r: Result<(), CreateError>)
        requires
            old(self).wf(),
        ensures
            final(self).wf(),
            lane >= old(self)@.lanes.len() ==> r == Err::<(), CreateError>(
                CreateError::LaneOutOfRange,
            ),
            exists|c: CardView|
                {
                    &&& c.lane_id == lane
                    &&& c.id.len() == 36
                    &&& c.description is Some
                    &&& r == create_outcome(old(self)@, lane as int, c.id)
                    &&& r is Ok ==> final(self)@.lanes == created_lanes(
                        old(self)@.lanes,
                        lane as int,
                        c,
                    )
                },
            r is Err ==> final(self)@.lanes == old(self)@.lanes,
            final(self)@.names == old(self)@.names,
            final(self)@.dragged == old(self)@.dragged,
    {
        let id = random_card_id();
        let title = fake_name();
        let words = fake_words(MIN_WORDS, MAX_WORDS);
        let description = join_words(&words);
        let ghost c = CardView {
            lane_id: lane as nat,
            id: id@,
            title: title@,
            description: Some(description@),
        };
        let r = self.create_card(lane, id, title, description);
        assert(c.lane_id == lane && c.id.len() == 36);
        r
    }

    /// Name of lane `lane`.
    pub fn lane_name(&self, lane: usize) -> (r: &String)
        requires
            self.wf(),
            lane < self@.lanes.len(),
        ensures
            r@ == self@.names[lane as int],
    {
        &self.names[lane]
    }

    /// Number of cards in lane `lane`.
    pub fn lane_len(&self, lane: usize) -> (r: usize)
        requires
            lane < self@.lanes.len(),
        ensures
            r == self@.lanes[lane as int].len(),
    {
        self.lanes[lane].len()
    }

    /// The card at position `index` of lane `lane`.
    pub fn card_at(&self, lane: usize, index: usize) -> (r: &CardDef)
        requires
            valid_pos(self@.lanes, lane as int, index as int),
        ensures
            r@ == self@.lanes[lane as int][index as int],
    {
        assert(lane_view(self.lanes@[lane as int]) == self@.lanes[lane as int]);
        &self.lanes[lane][index]
    }

    /// The card being dragged, if any.
    pub fn dragged_card(&self) -> (r: Option<&CardDef>)
        ensures
            match r {
                Some(c) => self@.dragged == Some(c@),
                None => self@.dragged is None,
            },
    {
        match &self.dragged {
            Some(c) => Some(c),
            None => None,
        }
    }

    /// Sets the title of the card `card_id`. Returns whether the board holds
    /// that card; no other field and no other card changes.
    pub fn set_title(&mut self, card_id: &String, title: String) -> (r: bool)
        requires
            old(self).wf(),
        ensures
            final(self).wf(),
            r == board_has_id(old(self)@.lanes, card_id@),
            r ==> {
                let p = position_of_id(old(self)@.lanes, card_id@);
                final(self)@.lanes == replaced_lanes(
                    old(self)@.lanes,
                    p,
                    old(self)@.lanes[p.0][p.1].with_title(title@),
                )
            },
            !r ==> final(self)@.lanes == old(self)@.lanes,
            final(self)@.names == old(self)@.names,
            final(self)@.dragged == old(self)@.dragged,
    {
        let ghost ov = self@;
        match self.locate(card_id) {
            None => false,
            Some((i, j)) => {
                let ghost p = (i as int, j as int);
                let ghost cv = ov.lanes[i as int][j as int].with_title(title@);
                proof {
                    lemma_position_unique(ov.lanes, i as int, j as int);
                    lemma_replace_keeps_well_formed(ov.lanes, p, cv);
                }
                self.lanes[i][j].title = title;
                proof {
                    let c = replaced_lanes(ov.lanes, p, cv);
                    assert forall|a: int| 0 <= a < c.len() implies #[trigger] self@.lanes[a] =~= c[a] by {}
                    assert(self@.lanes =~= c);
                }
                true
            },
        }
    }

    /// Sets the description of the card `card_id`. Returns whether the board
    /// holds that card; no other field and no other card changes.
    pub fn set_description(&mut self, card_id: &String, description: String) -> (r: bool)
        requires
            old(self).wf(),
        ensures
            final(self).wf(),
            r == board_has_id(old(self)@.lanes, card_id@),
            r ==> {
                let p = position_of_id(old(self)@.lanes, card_id@);
                final(self)@.lanes == replaced_lanes(
                    old(self)@.lanes,
                    p,
                    old(self)@.lanes[p.0][p.1].with_description(description@),
                )
            },
            !r ==> final(self)@.lanes == old(self)@.lanes,
            final(self)@.names == old(self)@.names,
            final(self)@.dragged == old(self)@.dragged,
    {
        let ghost ov = self@;
        match self.locate(card_id) {
            None => false,
            Some((i, j)) => {
                let ghost p = (i as int, j as int);
                let ghost cv = ov.lanes[i as int][j as int].with_description(description@);
                proof {
                    lemma_position_unique(ov.lanes, i as int, j as int);
                    lemma_replace_keeps_well_formed(ov.lanes, p, cv);
                }
                self.lanes[i][j].description = Some(description);
                proof {
                    let c = replaced_lanes(ov.lanes, p, cv);
                    assert forall|a: int| 0 <= a < c.len() implies #[trigger] self@.lanes[a] =~= c[a] by {}
                    assert(self@.lanes =~= c);
                }
                true
            },
        }
    }

    /// Records a copy of the card at position `index` of lane `lane` as the
    /// card being dragged. Returns whether that position exists; if not,
    /// nothing changes.
    pub fn start_drag(&mut self, lane: usize, index: usize) -> (r: bool)
        requires
            old(self).wf(),
        ensures
            final(self).wf(),
            r == valid_pos(old(self)@.lanes, lane as int, index as int),
            r ==> final(self)@.dragged == Some(old(self)@.lanes[lane as int][index as int]),
            !r ==> final(self)@.dragged == old(self)@.dragged,
            final(self)@.lanes == old(self)@.lanes,
            final(self)@.names == old(self)@.names,
    {
        if lane >= self.lanes.len() || index >= self.lanes[lane].len() {
            return false;
        }
        assert(lane_view(self.lanes@[lane as int]) == self@.lanes[lane as int]);
        let card = self.lanes[lane][index].duplicate();
        self.dragged = Some(card);
        true
    }

    /// Forgets the card being dragged: a drag that ended without a drop.
    pub fn end_drag(&mut self)
        requires
            old(self).wf(),
        ensures
            final(self).wf(),
            final(self)@.dragged is None,
            final(self)@.lanes == old(self)@.lanes,
            final(self)@.names == old(self)@.names,
    {
        self.dragged = None;
    }

    /// A drop on lane `to`: moves the card being dragged from the lane it
    /// recorded at drag start to `to`, and clears the marker.
    pub fn drop_on(&mut self, to: usize) -> (r: Result<(), MoveError>)
        requires
            old(self).wf(),
        ensures
            final(self).wf(),
            match old(self)@.dragged {
                Some(c) => {
                    &&& r == move_outcome(old(self)@, c.id, c.lane_id as int, to as int)
                    &&& r is Ok ==> final(self)@.lanes == moved_lanes(
                        old(self)@.lanes,
                        c.id,
                        c.lane_id as int,
                        to as int,
                    )
                },
                None => r == Err::<(), MoveError>(MoveError::NoDraggedCard),
            },
            r is Err ==> final(self)@.lanes == old(self)@.lanes,
            final(self)@.names == old(self)@.names,
            final(self)@.dragged is None,
    {
        let request = match &self.dragged {
            Some(c) => Some((c.id.clone(), c.lane_id)),
            None => None,
        };
        match request {
            Some((id, from)) => self.move_card(&id, from, to),
            None => Err(MoveError::NoDraggedCard),
        }
    }

    /// Moves the card `card_id` from lane `from` to the end of lane `to`,
    /// where it records `to` as its lane. A request that names a card that
    /// lane `from` does not hold changes no lane. The dragged-card marker is
    /// cleared in every case.
    pub fn move_card(&mut self, card_id: &String, from: usize, to: usize) -> (r: Result<
        (),
        MoveError,
    >)
        requires
            old(self).wf(),
        ensures
            final(self).wf(),
            r == move_outcome(old(self)@, card_id@, from as int, to as int),
            r is Ok ==> final(self)@.lanes == moved_lanes(
                old(self)@.lanes,
                card_id@,
                from as int,
                to as int,
            ),
            r is Err ==> final(self)@.lanes == old(self)@.lanes,
            final(self)@.names == old(self)@.names,
            final(self)@.dragged is None,
    {
        let ghost ov = self@;
        let was_dragging = self.dragged.is_some();
        self.dragged = None;
        assert(self@.lanes == ov.lanes && self@.names == ov.names);
        if !was_dragging {
            return Err(MoveError::NoDraggedCard);
        }
        if from >= self.lanes.len() || to >= self.lanes.len() {
            return Err(MoveError::LaneOutOfRange);
        }
        let found = find_in_lane(&self.lanes[from], card_id);
        assert(lane_view(self.lanes@[from as int]) == ov.lanes[from as int]);
        let j = match found {
            Some(j) => j,
            None => {
                return Err(MoveError::CardNotInLane);
            },
        };
        proof {
            let lane = ov.lanes[from as int];
            assert(lane[j as int].id == card_id@);
            assert(lane_has_id(lane, card_id@));
            let c = index_of_id(lane, card_id@);
            assert(ov.lanes[from as int][c].id == ov.lanes[from as int][j as int].id);
            assert(c == j);
            lemma_move_keeps_well_formed(ov.lanes, card_id@, from as int, to as int);
        }
        let mut card = self.lanes[from].remove(j);
        card.lane_id = to;
        self.lanes[to].push(card);
        proof {
            let moved = moved_lanes(ov.lanes, card_id@, from as int, to as int);
            assert forall|i: int| 0 <= i < moved.len() implies #[trigger] self@.lanes[i] =~= moved[i] by {}
            assert(self@.lanes =~= moved);
        }
        Ok(())
    }
}

} // verus!
