//! What the display has to do after a step of the notification stack.
use vstd::prelude::*;

use crate::event::{Reply, ReplyView};

verus! {

/// What a card shows.
#[derive(Debug)]
pub struct Card {
    pub app_name: String,
    pub summary: String,
    pub body: String,
    /// The application icon as RGBA rows, if one was found.
    pub icon_rgba: Option<Vec<u8>>,
}

/// An effect on the screen or on the bus. A list of actions is performed in order.
#[derive(Debug)]
pub enum Action {
    /// Create a surface for a new card, anchored at the top right, with these margins.
    Open {
        id: u32,
        surface: u64,
        namespace: String,
        card: Card,
        margin_top: i32,
        margin_right: i32,
    },
    /// Give a surface these margins and commit it.
    Move { surface: u64, margin_top: i32, margin_right: i32 },
    /// Draw one frame of the slide-in, `elapsed_ms` into it.
    Enter { surface: u64, margin_top: i32, elapsed_ms: u64, show_close: bool },
    /// Draw one frame of the fade-out, `elapsed_ms` into it.
    Leave { surface: u64, margin_top: i32, elapsed_ms: u64 },
    /// Draw a card where it is, fully visible or fully transparent.
    Draw { surface: u64, visible: bool, show_close: bool },
    /// Release a surface and its blur.
    Release { surface: u64 },
    /// Send a message to the bus.
    Send(Reply),
}

/// What a [`Card`] says.
#[verifier::ext_equal]
pub struct CardView {
    pub app_name: Seq<char>,
    pub summary: Seq<char>,
    pub body: Seq<char>,
    pub icon_rgba: Option<Seq<u8>>,
}

/// What an [`Action`] asks for.
#[verifier::ext_equal]
pub enum ActionView {
    Open {
        id: u32,
        surface: u64,
        namespace: Seq<char>,
        card: CardView,
        margin_top: int,
        margin_right: int,
    },
    Move { surface: u64, margin_top: int, margin_right: int },
    Enter { surface: u64, margin_top: int, elapsed_ms: int, show_close: bool },
    Leave { surface: u64, margin_top: int, elapsed_ms: int },
    Draw { surface: u64, visible: bool, show_close: bool },
    Release { surface: u64 },
    Send(ReplyView),
}

impl View for Card {
    type V = CardView;

    open spec fn view(&self) -> CardView {
        CardView {
            app_name: self.app_name@,
            summary: self.summary@,
            body: self.body@,
            icon_rgba: match self.icon_rgba {
                Some(rgba) => Some(rgba@),
                None => None,
            },
        }
    }
}

impl View for Action {
    type V = ActionView;

    open spec fn view(&self) -> ActionView {
        match *self {
            Action::Open { id, surface, namespace, card, margin_top, margin_right } =>
                ActionView::Open {
                    id,
                    surface,
                    namespace: namespace@,
                    card: card@,
                    margin_top: margin_top as int,
                    margin_right: margin_right as int,
                },
            Action::Move { surface, margin_top, margin_right } => ActionView::Move {
                surface,
                margin_top: margin_top as int,
                margin_right: margin_right as int,
            },
            Action::Enter { surface, margin_top, elapsed_ms, show_close } => ActionView::Enter {
                surface,
                margin_top: margin_top as int,
                elapsed_ms: elapsed_ms as int,
                show_close,
            },
            Action::Leave { surface, margin_top, elapsed_ms } => ActionView::Leave {
                surface,
                margin_top: margin_top as int,
                elapsed_ms: elapsed_ms as int,
            },
            Action::Draw { surface, visible, show_close } => ActionView::Draw {
                surface,
                visible,
                show_close,
            },
            Action::Release { surface } => ActionView::Release { surface },
            Action::Send(reply) => ActionView::Send(reply@),
        }
    }
}

/// What a list of actions asks for, in order.
pub open spec fn requests(actions: Seq<Action>) -> Seq<ActionView> {
    Seq::new(actions.len(), |i: int| actions[i]@)
}

pub proof fn lemma_requests_push(actions: Seq<Action>, action: Action)
    ensures
        requests(actions.push(action)) == requests(actions).push(action@),
{
    assert(requests(actions.push(action)) =~= requests(actions).push(action@));
}

pub proof fn lemma_requests_add(first: Seq<Action>, second: Seq<Action>)
    ensures
        requests(first + second) == requests(first) + requests(second),
{
    assert(requests(first + second) =~= requests(first) + requests(second));
}

} // verus!
