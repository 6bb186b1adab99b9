//! What a client says to its server, and how to pick one kind of message out
//! of a record of everything that was said.
use vstd::prelude::*;

verus! {

/// Where the focus moves.
#[derive(Debug, Clone, Copy, PartialEq, Eq)]
pub enum Direction {
    Left,
    Right,
    Up,
    Down,
}

/// Something the user asked for by pressing keys.
#[derive(Debug, PartialEq, Eq)]
pub enum Action {
    /// End the session.
    Quit,
    /// Hand these bytes to the focused pane.
    Write(Vec<u8>),
    /// Move the focus, or change the tab at the edge of the screen.
    MoveFocusOrTab(Direction),
    /// Any other action, in serialized form.
    Other(Vec<u8>),
}

/// The mathematical counterpart of [`Action`].
pub enum ActionView {
    Quit,
    Write(Seq<u8>),
    MoveFocusOrTab(Direction),
    Other(Seq<u8>),
}

impl DeepView for Action {
    type V = ActionView;

    open spec fn deep_view(&self) -> ActionView {
        match *self {
            Action::Quit => ActionView::Quit,
            Action::Write(bytes) => ActionView::Write(bytes@),
            Action::MoveFocusOrTab(direction) => ActionView::MoveFocusOrTab(direction),
            Action::Other(bytes) => ActionView::Other(bytes@),
        }
    }
}

impl Clone for Action {
    fn clone(&self) -> (res: Self)
        ensures
            res.deep_view() == self.deep_view(),
    {
        match self {
            Action::Quit => Action::Quit,
            Action::Write(bytes) => Action::Write(bytes.clone()),
            Action::MoveFocusOrTab(direction) => Action::MoveFocusOrTab(*direction),
            Action::Other(bytes) => Action::Other(bytes.clone()),
        }
    }
}

/// A size on the screen, in pixels.
#[derive(Debug, Clone, Copy, PartialEq, Eq)]
pub struct SizeInPixels {
    pub height: usize,
    pub width: usize,
}

/// What is known of the terminal emulator's pixel geometry.
#[derive(Debug, Clone, Copy, PartialEq, Eq)]
pub struct PixelDimensions {
    pub text_area_size: Option<SizeInPixels>,
    pub character_cell_size: Option<SizeInPixels>,
}

/// A message from the client to the server.
#[derive(Debug, PartialEq, Eq)]
pub enum ClientToServerMsg {
    Action(Action),
    TerminalPixelDimensions(PixelDimensions),
    /// Any other message, in serialized form.
    Other(Vec<u8>),
}

/// The mathematical counterpart of [`ClientToServerMsg`].
pub enum MsgView {
    Action(ActionView),
    TerminalPixelDimensions(PixelDimensions),
    Other(Seq<u8>),
}

impl DeepView for ClientToServerMsg {
    type V = MsgView;

    open spec fn deep_view(&self) -> MsgView {
        match *self {
            ClientToServerMsg::Action(action) => MsgView::Action(action.deep_view()),
            ClientToServerMsg::TerminalPixelDimensions(pixel_dimensions) =>
                MsgView::TerminalPixelDimensions(pixel_dimensions),
            ClientToServerMsg::Other(bytes) => MsgView::Other(bytes@),
        }
    }
}

impl Clone for ClientToServerMsg {
    fn clone(&self) -> (res: Self)
        ensures
            res.deep_view() == self.deep_view(),
    {
        match self {
            ClientToServerMsg::Action(action) => ClientToServerMsg::Action(action.clone()),
            ClientToServerMsg::TerminalPixelDimensions(pixel_dimensions) =>
                ClientToServerMsg::TerminalPixelDimensions(*pixel_dimensions),
            ClientToServerMsg::Other(bytes) => ClientToServerMsg::Other(bytes.clone()),
        }
    }
}

/// The action that a message carries, if it carries one.
pub open spec fn action_of(msg: MsgView) -> Option<ActionView> {
    match msg {
        MsgView::Action(action) => Some(action),
        _ => None,
    }
}

/// The pixel dimensions that a message carries, if it carries any.
pub open spec fn pixel_dimensions_of(msg: MsgView) -> Option<PixelDimensions> {
    match msg {
        MsgView::TerminalPixelDimensions(pixel_dimensions) => Some(pixel_dimensions),
        _ => None,
    }
}

/// The actions among `msgs`, in the order in which they were sent.
pub open spec fn actions_in(msgs: Seq<MsgView>) -> Seq<ActionView> {
    msgs.filter_map(|msg: MsgView| action_of(msg))
}

/// The pixel dimensions among `msgs`, in the order in which they were sent.
pub open spec fn pixel_dimensions_in(msgs: Seq<MsgView>) -> Seq<PixelDimensions> {
    msgs.filter_map(|msg: MsgView| pixel_dimensions_of(msg))
}

/// The messages that carry `actions`, one each.
pub open spec fn action_messages(actions: Seq<ActionView>) -> Seq<MsgView> {
    actions.map_values(|action: ActionView| MsgView::Action(action))
}

/// The actions among the messages sent, oldest first.
pub fn extract_actions_sent_to_server(events_sent_to_server: &Vec<ClientToServerMsg>) -> (actions:
    Vec<Action>)
    ensures
        actions.deep_view() == actions_in(events_sent_to_server.deep_view()),
{
    let ghost msgs = events_sent_to_server.deep_view();
    let mut actions: Vec<Action> = Vec::new();
    assert(actions.deep_view() =~= actions_in(msgs.take(0)));
    for i in 0..events_sent_to_server.len()
        invariant
            msgs == events_sent_to_server.deep_view(),
            actions.deep_view() == actions_in(msgs.take(i as int)),
    {
        let ghost before = actions.deep_view();
        proof {
            msgs.lemma_filter_map_take_succ(|msg: MsgView| action_of(msg), i as int);
        }
        if let ClientToServerMsg::Action(action) = &events_sent_to_server[i] {
            actions.push(action.clone());
            assert(actions.deep_view() =~= before.push(action.deep_view()));
        }
    }
    assert(msgs.take(msgs.len() as int) =~= msgs);
    actions
}

/// The pixel dimensions among the messages sent, oldest first.
pub fn extract_pixel_events_sent_to_server(
    events_sent_to_server: &Vec<ClientToServerMsg>,
) -> (pixel_events: Vec<PixelDimensions>)
    ensures
        pixel_events@ == pixel_dimensions_in(events_sent_to_server.deep_view()),
{
    let ghost msgs = events_sent_to_server.deep_view();
    let mut pixel_events: Vec<PixelDimensions> = Vec::new();
    assert(pixel_events@ =~= pixel_dimensions_in(msgs.take(0)));
    for i in 0..events_sent_to_server.len()
        invariant
            msgs == events_sent_to_server.deep_view(),
            pixel_events@ == pixel_dimensions_in(msgs.take(i as int)),
    {
        proof {
            msgs.lemma_filter_map_take_succ(|msg: MsgView| pixel_dimensions_of(msg), i as int);
        }
        if let ClientToServerMsg::TerminalPixelDimensions(pixel_dimensions) =
            &events_sent_to_server[i] {
            pixel_events.push(*pixel_dimensions);
        }
    }
    assert(msgs.take(msgs.len() as int) =~= msgs);
    pixel_events
}

/// Extracting from two records one after the other is extracting from both
/// together.
pub proof fn law_extraction_distributes(first: Seq<MsgView>, second: Seq<MsgView>)
    ensures
        actions_in(first + second) == actions_in(first) + actions_in(second),
        pixel_dimensions_in(first + second) == pixel_dimensions_in(first) + pixel_dimensions_in(
            second,
        ),
    decreases second.len(),
{
    if second.len() == 0 {
        assert(first + second =~= first);
    } else {
        law_extraction_distributes(first, second.drop_last());
        assert((first + second).drop_last() =~= first + second.drop_last());
        assert((first + second).last() == second.last());
    }
}

/// No message is extracted twice: each one is an action, or pixel dimensions,
/// or neither.
pub proof fn law_extractions_are_disjoint(msgs: Seq<MsgView>)
    ensures
        actions_in(msgs).len() + pixel_dimensions_in(msgs).len() + msgs.filter(
            |msg: MsgView| msg is Other,
        ).len() == msgs.len(),
    decreases msgs.len(),
{
    reveal(Seq::filter);
    if msgs.len() > 0 {
        law_extractions_are_disjoint(msgs.drop_last());
    }
}

/// Actions that were sent are extracted as they were sent, and none of them is
/// taken for pixel dimensions.
pub proof fn law_sent_actions_are_extracted(actions: Seq<ActionView>)
    ensures
        actions_in(action_messages(actions)) == actions,
        pixel_dimensions_in(action_messages(actions)) == Seq::<PixelDimensions>::empty(),
    decreases actions.len(),
{
    if actions.len() > 0 {
        law_sent_actions_are_extracted(actions.drop_last());
        assert(action_messages(actions).drop_last() =~= action_messages(actions.drop_last()));
        assert(actions.drop_last().push(actions.last()) =~= actions);
    } else {
        assert(action_messages(actions) =~= Seq::<MsgView>::empty());
    }
}

/// The view of an action keeps its kind and all that it carries.
pub proof fn law_action_view_keeps_everything(action: Action)
    ensures
        match action {
            Action::Quit => action.deep_view() == ActionView::Quit,
            Action::Write(bytes) => action.deep_view() == ActionView::Write(bytes@),
            Action::MoveFocusOrTab(direction) => action.deep_view()
                == ActionView::MoveFocusOrTab(direction),
            Action::Other(bytes) => action.deep_view() == ActionView::Other(bytes@),
        },
{
}

/// The view of a message keeps its kind and all that it carries.
pub proof fn law_message_view_keeps_everything(msg: ClientToServerMsg)
    ensures
        match msg {
            ClientToServerMsg::Action(action) => msg.deep_view() == MsgView::Action(
                action.deep_view(),
            ),
            ClientToServerMsg::TerminalPixelDimensions(pixel_dimensions) => msg.deep_view()
                == MsgView::TerminalPixelDimensions(pixel_dimensions),
            ClientToServerMsg::Other(bytes) => msg.deep_view() == MsgView::Other(bytes@),
        },
{
}

/// From a record of actions alone, just these actions are extracted.
pub proof fn law_actions_are_extracted_as_sent(msgs: Seq<MsgView>, actions: Seq<ActionView>)
    requires
        msgs.len() == actions.len(),
        forall|i: int| 0 <= i < msgs.len() ==> #[trigger] msgs[i] == MsgView::Action(actions[i]),
    ensures
        actions_in(msgs) == actions,
        pixel_dimensions_in(msgs).len() == 0,
    decreases msgs.len(),
{
    if msgs.len() > 0 {
        law_actions_are_extracted_as_sent(msgs.drop_last(), actions.drop_last());
        assert(actions_in(msgs) =~= actions);
    } else {
        assert(actions_in(msgs) =~= actions);
    }
}

/// From a record of pixel dimensions alone, just these are extracted, every
/// field of them as it was sent.
pub proof fn law_pixel_dimensions_are_extracted_as_sent(
    msgs: Seq<MsgView>,
    sent: Seq<PixelDimensions>,
)
    requires
        msgs.len() == sent.len(),
        forall|i: int|
            0 <= i < msgs.len() ==> #[trigger] msgs[i] == MsgView::TerminalPixelDimensions(sent[i]),
    ensures
        pixel_dimensions_in(msgs) == sent,
        actions_in(msgs).len() == 0,
    decreases msgs.len(),
{
    if msgs.len() > 0 {
        law_pixel_dimensions_are_extracted_as_sent(msgs.drop_last(), sent.drop_last());
        assert(pixel_dimensions_in(msgs) =~= sent);
    } else {
        assert(pixel_dimensions_in(msgs) =~= sent);
    }
}

/// From a record of other messages nothing is extracted.
pub proof fn law_other_messages_are_not_extracted(msgs: Seq<MsgView>)
    requires
        forall|i: int| 0 <= i < msgs.len() ==> (#[trigger] msgs[i]) is Other,
    ensures
        actions_in(msgs).len() == 0,
        pixel_dimensions_in(msgs).len() == 0,
    decreases msgs.len(),
{
    if msgs.len() > 0 {
        assert(msgs[msgs.len() - 1] is Other);
        law_other_messages_are_not_extracted(msgs.drop_last());
    }
}

/// One message more in a record is one value more at the end of what is
/// extracted of its kind, and changes nothing of the other kind.
pub proof fn law_extraction_follows_the_record(msgs: Seq<MsgView>, msg: MsgView)
    ensures
        match msg {
            MsgView::Action(action) => {
                &&& actions_in(msgs.push(msg)) == actions_in(msgs).push(action)
                &&& pixel_dimensions_in(msgs.push(msg)) == pixel_dimensions_in(msgs)
            },
            MsgView::TerminalPixelDimensions(pixel_dimensions) => {
                &&& actions_in(msgs.push(msg)) == actions_in(msgs)
                &&& pixel_dimensions_in(msgs.push(msg)) == pixel_dimensions_in(msgs).push(
                    pixel_dimensions,
                )
            },
            MsgView::Other(_) => {
                &&& actions_in(msgs.push(msg)) == actions_in(msgs)
                &&& pixel_dimensions_in(msgs.push(msg)) == pixel_dimensions_in(msgs)
            },
        },
{
    assert(msgs.push(msg).drop_last() =~= msgs);
    match msg {
        MsgView::Action(action) => {
            assert(actions_in(msgs.push(msg)) =~= actions_in(msgs).push(action));
        },
        MsgView::TerminalPixelDimensions(pixel_dimensions) => {
            assert(pixel_dimensions_in(msgs.push(msg)) =~= pixel_dimensions_in(msgs).push(
                pixel_dimensions,
            ));
        },
        MsgView::Other(_) => {},
    }
}

} // verus!
