use vstd::prelude::*;

verus! {

/// Mathematical view of a card.
pub struct CardView {
    pub lane_id: nat,
    pub id: Seq<char>,
    pub title: Seq<char>,
    pub description: Option<Seq<char>>,
}

impl CardView {
    pub open spec fn with_lane(self, lane: nat) -> CardView {
        CardView { lane_id: lane, ..self }
    }

    pub open spec fn with_title(self, title: Seq<char>) -> CardView {
        CardView { title: title, ..self }
    }

    pub open spec fn with_description(self, description: Seq<char>) -> CardView {
        CardView { description: Some(description), ..self }
    }
}

pub open spec fn text_view(t: Option<String>) -> Option<Seq<char>> {
    match t {
        Some(s) => Some(s@),
        None => None,
    }
}

/// A card: an opaque identifier, the lane that holds it, and its text.
pub struct CardDef {
    pub lane_id: usize,
    pub id: String,
    pub title: String,
    pub description: Option<String>,
}

impl View for CardDef {
    type V = CardView;

    open spec fn view(&self) -> CardView {
        CardView {
            lane_id: self.lane_id as nat,
            id: self.id@,
            title: self.title@,
            description: text_view(self.description),
        }
    }
}

impl CardDef {
    /// A copy of the card with the same identifier, lane and text.
    pub fn duplicate(&self) -> (r: CardDef)
        ensures
            r@ == self@,
    {
        let description = match &self.description {
            Some(d) => Some(d.clone()),
            None => None,
        };
        CardDef {
            lane_id: self.lane_id,
            id: self.id.clone(),
            title: self.title.clone(),
            description,
        }
    }
}

/// Whether a card shows its text or the fields that edit it.
#[derive(Clone, Copy, Debug, PartialEq, Eq, Structural)]
pub enum EditMode {
    Viewing,
    Editing,
}

impl EditMode {
    /// The explicit edit action.
    pub fn edit(self) -> (r: EditMode)
        ensures
            r == EditMode::Editing,
    {
        EditMode::Editing
    }

    /// The explicit save action.
    pub fn save(self) -> (r: EditMode)
        ensures
            r == EditMode::Viewing,
    {
        EditMode::Viewing
    }

    pub fn is_editing(&self) -> (r: bool)
        ensures
            r == (*self == EditMode::Editing),
    {
        match self {
            EditMode::Editing => true,
            EditMode::Viewing => false,
        }
    }
}

/// Whether something being dragged is over a lane.
#[derive(Clone, Copy, Debug, PartialEq, Eq, Structural)]
pub enum DropZone {
    Idle,
    Hovering,
}

impl DropZone {
    pub fn drag_enter(self) -> (r: DropZone)
        ensures
            r == DropZone::Hovering,
    {
        DropZone::Hovering
    }

    pub fn drag_leave(self) -> (r: DropZone)
        ensures
            r == DropZone::Idle,
    {
        DropZone::Idle
    }

    pub fn drop(self) -> (r: DropZone)
        ensures
            r == DropZone::Idle,
    {
        DropZone::Idle
    }

    pub fn is_hovering(&self) -> (r: bool)
        ensures
            r == (*self == DropZone::Hovering),
    {
        match self {
            DropZone::Hovering => true,
            DropZone::Idle => false,
        }
    }
}

} // verus!
