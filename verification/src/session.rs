//! What an input loop does, as a state that each key press changes.
use crate::keys::law_only_bare_keys_make_control_sequences;
use crate::keys::KeyCode;
use crate::keys::KeyEvent;
use crate::keys::KeyPress;
use crate::messages::action_messages;
use crate::messages::actions_in;
use crate::messages::law_extraction_distributes;
use crate::messages::law_sent_actions_are_extracted;
use crate::messages::pixel_dimensions_in;
use crate::messages::ActionView;
use crate::messages::MsgView;
use crate::messages::PixelDimensions;
use crate::messages::SizeInPixels;
use crate::pixel_report::decimal;
use crate::pixel_report::is_number;
use crate::pixel_report::is_report;
use crate::pixel_report::law_beginnings_begin_a_report;
use crate::pixel_report::law_character_cell_report_is_read;
use crate::pixel_report::law_escape_corrupts_a_report;
use crate::pixel_report::law_nothing_is_incomplete;
use crate::pixel_report::law_report_begins_with_escape;
use crate::pixel_report::law_report_is_read;
use crate::pixel_report::law_report_tells_one_thing;
use crate::pixel_report::law_text_area_report_is_read;
use crate::pixel_report::reading;
use crate::pixel_report::report_text;
use crate::pixel_report::tells;
use crate::pixel_report::told_by;
use crate::pixel_report::ESC;
use crate::pixel_report::Reading;
use vstd::prelude::*;

verus! {

/// The number of reports that [`crate::commands::PIXEL_QUERIES`] asks for.
pub const PIXEL_REPORTS: usize = 2;

/// The action that the first binding of `key` names.
pub open spec fn bound_action(
    keybinds: Seq<(KeyEvent, ActionView)>,
    key: KeyEvent,
) -> Option<ActionView>
    decreases keybinds.len(),
{
    if keybinds.len() == 0 {
        None
    } else if keybinds[0].0 == key {
        Some(keybinds[0].1)
    } else {
        bound_action(keybinds.drop_first(), key)
    }
}

/// What a key press asks for: the action bound to the key, or else that the
/// bytes of the key are written.
pub open spec fn action_for(
    keybinds: Seq<(KeyEvent, ActionView)>,
    press: KeyPress,
) -> ActionView {
    match bound_action(keybinds, press.key) {
        Some(action) => action,
        None => ActionView::Write(press.raw_bytes),
    }
}

/// Every one of `presses` can be part of a control sequence.
pub open spec fn is_text(presses: Seq<KeyPress>) -> bool {
    forall|i: int|
        0 <= i < presses.len() ==> (#[trigger] presses[i]).key.spec_sequence_char() is Some
}

/// The characters that `presses` stand for.
pub open spec fn text_of(presses: Seq<KeyPress>) -> Seq<char> {
    presses.map_values(|press: KeyPress| press.key.spec_sequence_char()->Some_0)
}

/// How `presses` read as a pixel report.
pub open spec fn presses_reading(presses: Seq<KeyPress>) -> Reading {
    if is_text(presses) {
        reading(text_of(presses))
    } else {
        Reading::Corrupted
    }
}

/// Where an input loop stands.
#[verifier::ext_equal]
pub struct Session {
    /// How many pixel reports may still come.
    pub awaited: nat,
    /// The presses held back because they may be a report.
    pub held: Seq<KeyPress>,
    /// The user asked to quit.
    pub quit: bool,
    /// The messages sent to the server, oldest first.
    pub sent: Seq<MsgView>,
}

impl Session {
    /// A loop that has just started, after `sent` was sent.
    pub open spec fn started(sent: Seq<MsgView>) -> Session {
        Session { awaited: PIXEL_REPORTS as nat, held: Seq::empty(), quit: false, sent }
    }

    /// What every state of a loop satisfies: presses are held back only while
    /// a report is awaited, and only those that begin one.
    pub open spec fn valid(self) -> bool {
        &&& self.awaited == 0 ==> self.held.len() == 0
        &&& presses_reading(self.held) == Reading::Incomplete
    }

    /// After one press was handled as a key. Nothing happens after a quit.
    pub open spec fn handling_key(
        self,
        keybinds: Seq<(KeyEvent, ActionView)>,
        press: KeyPress,
    ) -> Session {
        if self.quit {
            self
        } else {
            let action = action_for(keybinds, press);
            Session {
                quit: action == ActionView::Quit,
                sent: self.sent.push(MsgView::Action(action)),
                ..self
            }
        }
    }

    /// After all of `presses` were handled as keys, in order.
    pub open spec fn handling_keys(
        self,
        keybinds: Seq<(KeyEvent, ActionView)>,
        presses: Seq<KeyPress>,
    ) -> Session
        decreases presses.len(),
    {
        if presses.len() == 0 {
            self
        } else {
            self.handling_keys(keybinds, presses.drop_last()).handling_key(keybinds, presses.last())
        }
    }

    /// After one press came in.
    pub open spec fn receiving(
        self,
        keybinds: Seq<(KeyEvent, ActionView)>,
        press: KeyPress,
    ) -> Session {
        if self.quit {
            self
        } else if self.awaited == 0 {
            self.handling_key(keybinds, press)
        } else {
            let presses = self.held.push(press);
            match presses_reading(presses) {
                Reading::Incomplete => Session { held: presses, ..self },
                Reading::Complete(pixel_dimensions) => Session {
                    awaited: (self.awaited - 1) as nat,
                    held: Seq::empty(),
                    sent: self.sent.push(MsgView::TerminalPixelDimensions(pixel_dimensions)),
                    ..self
                },
                Reading::Corrupted => Session {
                    awaited: 0,
                    held: Seq::empty(),
                    ..self
                }.handling_keys(keybinds, presses),
            }
        }
    }

    /// After all of `presses` came in, in order.
    pub open spec fn receiving_all(
        self,
        keybinds: Seq<(KeyEvent, ActionView)>,
        presses: Seq<KeyPress>,
    ) -> Session
        decreases presses.len(),
    {
        if presses.len() == 0 {
            self
        } else {
            self.receiving_all(keybinds, presses.drop_last()).receiving(keybinds, presses.last())
        }
    }
}

/// A loop that goes on from where another stopped does what one loop over both
/// inputs does.
pub proof fn law_receiving_splits(
    session: Session,
    keybinds: Seq<(KeyEvent, ActionView)>,
    first: Seq<KeyPress>,
    second: Seq<KeyPress>,
)
    ensures
        session.receiving_all(keybinds, first + second) == session.receiving_all(
            keybinds,
            first,
        ).receiving_all(keybinds, second),
    decreases second.len(),
{
    if second.len() == 0 {
        assert(first + second =~= first);
    } else {
        law_receiving_splits(session, keybinds, first, second.drop_last());
        assert((first + second).drop_last() =~= first + second.drop_last());
        assert((first + second).last() == second.last());
    }
}

/// Nothing that comes in after a quit is handled.
pub proof fn law_quit_ends_the_loop(
    session: Session,
    keybinds: Seq<(KeyEvent, ActionView)>,
    presses: Seq<KeyPress>,
)
    requires
        session.quit,
    ensures
        session.receiving_all(keybinds, presses) == session,
    decreases presses.len(),
{
    if presses.len() > 0 {
        law_quit_ends_the_loop(session, keybinds, presses.drop_last());
    }
}

proof fn lemma_handled_keys_are_appended(
    session: Session,
    keybinds: Seq<(KeyEvent, ActionView)>,
    presses: Seq<KeyPress>,
)
    ensures
        session.sent.is_prefix_of(session.handling_keys(keybinds, presses).sent),
    decreases presses.len(),
{
    if presses.len() > 0 {
        lemma_handled_keys_are_appended(session, keybinds, presses.drop_last());
    }
}

pub(crate) proof fn lemma_sent_only_grows(
    session: Session,
    keybinds: Seq<(KeyEvent, ActionView)>,
    press: KeyPress,
)
    ensures
        session.sent.is_prefix_of(session.receiving(keybinds, press).sent),
{
    lemma_handled_keys_are_appended(
        Session { awaited: 0, held: Seq::empty(), ..session },
        keybinds,
        session.held.push(press),
    );
}

/// What was sent stays sent: a loop only adds to it.
pub proof fn law_sent_only_grows(
    session: Session,
    keybinds: Seq<(KeyEvent, ActionView)>,
    presses: Seq<KeyPress>,
)
    ensures
        session.sent.is_prefix_of(session.receiving_all(keybinds, presses).sent),
    decreases presses.len(),
{
    if presses.len() > 0 {
        law_sent_only_grows(session, keybinds, presses.drop_last());
        lemma_sent_only_grows(
            session.receiving_all(keybinds, presses.drop_last()),
            keybinds,
            presses.last(),
        );
    }
}

/// The messages that `presses` ask for, one each.
pub open spec fn key_messages(
    keybinds: Seq<(KeyEvent, ActionView)>,
    presses: Seq<KeyPress>,
) -> Seq<MsgView> {
    presses.map_values(|press: KeyPress| MsgView::Action(action_for(keybinds, press)))
}

/// `press` asks to quit.
pub open spec fn asks_to_quit(keybinds: Seq<(KeyEvent, ActionView)>, press: KeyPress) -> bool {
    action_for(keybinds, press) == ActionView::Quit
}

/// Keys are handled in order, each with one message, up to and with the first
/// that asks to quit.
pub proof fn law_keys_are_handled_in_order(
    session: Session,
    keybinds: Seq<(KeyEvent, ActionView)>,
    presses: Seq<KeyPress>,
) -> (handled: int)
    requires
        !session.quit,
    ensures
        0 <= handled <= presses.len(),
        session.handling_keys(keybinds, presses) == (Session {
            quit: handled > 0 && asks_to_quit(keybinds, presses[handled - 1]),
            sent: session.sent + key_messages(keybinds, presses.take(handled)),
            ..session
        }),
        forall|i: int|
            0 <= i < handled - 1 ==> !asks_to_quit(keybinds, #[trigger] presses[i]),
        session.handling_keys(keybinds, presses).quit || handled == presses.len(),
    decreases presses.len(),
{
    if presses.len() == 0 {
        assert(session.sent + key_messages(keybinds, presses.take(0)) =~= session.sent);
        0
    } else {
        let front = presses.drop_last();
        let handled = law_keys_are_handled_in_order(session, keybinds, front);
        let before = session.handling_keys(keybinds, front);
        if before.quit {
            assert(presses.take(handled) =~= front.take(handled));
            assert forall|i: int| 0 <= i < handled - 1 implies !asks_to_quit(
                keybinds,
                #[trigger] presses[i],
            ) by {
                assert(presses[i] == front[i]);
            }
            handled
        } else {
            assert(front.take(handled) =~= front);
            assert(presses.take(handled + 1) =~= presses);
            assert(session.sent + key_messages(keybinds, presses) =~= (session.sent
                + key_messages(keybinds, front)).push(
                MsgView::Action(action_for(keybinds, presses.last())),
            ));
            assert forall|i: int| 0 <= i < handled implies !asks_to_quit(
                keybinds,
                #[trigger] presses[i],
            ) by {
                assert(presses[i] == front[i]);
            }
            handled + 1
        }
    }
}

/// While no report is awaited, every press is handled as a key.
pub proof fn law_presses_are_keys_when_no_report_is_awaited(
    session: Session,
    keybinds: Seq<(KeyEvent, ActionView)>,
    presses: Seq<KeyPress>,
)
    requires
        session.awaited == 0,
    ensures
        session.receiving_all(keybinds, presses) == session.handling_keys(keybinds, presses),
    decreases presses.len(),
{
    if presses.len() > 0 {
        law_presses_are_keys_when_no_report_is_awaited(session, keybinds, presses.drop_last());
        lemma_handling_keys_keeps(session, keybinds, presses.drop_last());
    }
}

proof fn lemma_handling_keys_keeps(
    session: Session,
    keybinds: Seq<(KeyEvent, ActionView)>,
    presses: Seq<KeyPress>,
)
    ensures
        session.handling_keys(keybinds, presses).awaited == session.awaited,
        session.handling_keys(keybinds, presses).held == session.held,
    decreases presses.len(),
{
    if presses.len() > 0 {
        lemma_handling_keys_keeps(session, keybinds, presses.drop_last());
    }
}

/// Presses that can begin a report can do so without the last of them.
proof fn lemma_front_is_incomplete(presses: Seq<KeyPress>)
    requires
        presses.len() > 0,
        presses_reading(presses) == Reading::Incomplete,
    ensures
        presses_reading(presses.drop_last()) == Reading::Incomplete,
{
    let front = presses.drop_last();
    assert forall|i: int| 0 <= i < front.len() implies (
    #[trigger] front[i]).key.spec_sequence_char() is Some by {
        assert(presses[i].key.spec_sequence_char() is Some);
    }
    let last = text_of(presses).last();
    assert(text_of(presses) =~= text_of(front) + seq![last]);
    law_beginnings_begin_a_report(text_of(front), seq![last]);
}

/// Presses that can begin a report are all held back.
proof fn lemma_beginning_is_held(
    session: Session,
    keybinds: Seq<(KeyEvent, ActionView)>,
    presses: Seq<KeyPress>,
)
    requires
        !session.quit,
        session.awaited > 0,
        session.held.len() == 0,
        presses_reading(presses) == Reading::Incomplete,
    ensures
        session.receiving_all(keybinds, presses) == (Session { held: presses, ..session }),
    decreases presses.len(),
{
    if presses.len() == 0 {
        assert(session.held =~= presses);
    } else {
        lemma_front_is_incomplete(presses);
        lemma_beginning_is_held(session, keybinds, presses.drop_last());
        assert(presses.drop_last().push(presses.last()) =~= presses);
    }
}

/// A whole report that was awaited goes to the server, and none of its keys is
/// handled as a key.
pub proof fn law_pixel_report_is_sent_to_the_server(
    session: Session,
    keybinds: Seq<(KeyEvent, ActionView)>,
    presses: Seq<KeyPress>,
    pixel_dimensions: PixelDimensions,
)
    requires
        !session.quit,
        session.awaited > 0,
        session.held.len() == 0,
        is_text(presses),
        tells(text_of(presses), pixel_dimensions),
    ensures
        session.receiving_all(keybinds, presses) == (Session {
            awaited: (session.awaited - 1) as nat,
            held: Seq::empty(),
            quit: false,
            sent: session.sent.push(MsgView::TerminalPixelDimensions(pixel_dimensions)),
        }),
{
    let text = text_of(presses);
    law_report_tells_one_thing(text, pixel_dimensions, pixel_dimensions);
    let (kind, height, width) = choose|kind: nat, height: nat, width: nat|
        #[trigger] is_report(text, kind, height, width) && told_by(kind, height, width) == Some(
            pixel_dimensions,
        );
    let (k, h, w) = choose|k: Seq<char>, h: Seq<char>, w: Seq<char>|
        {
            &&& is_number(k) && is_number(h) && is_number(w)
            &&& decimal(k) == kind && decimal(h) == height && decimal(w) == width
            &&& text == #[trigger] report_text(k, h, w)
        };
    law_report_is_read(k, h, w);
    let front = presses.drop_last();
    assert(text_of(front) =~= text.take(text.len() - 1));
    assert(is_text(front)) by {
        assert forall|i: int| 0 <= i < front.len() implies (
        #[trigger] front[i]).key.spec_sequence_char() is Some by {
            assert(presses[i].key.spec_sequence_char() is Some);
        }
    }
    lemma_beginning_is_held(session, keybinds, front);
    assert(front.push(presses.last()) =~= presses);
}

/// Presses that began like a report and turn out to be none are all handled as
/// keys, in order, and no report is awaited any more.
pub proof fn law_corrupted_report_is_handled_as_keys(
    session: Session,
    keybinds: Seq<(KeyEvent, ActionView)>,
    presses: Seq<KeyPress>,
)
    requires
        !session.quit,
        session.awaited > 0,
        session.held.len() == 0,
        presses.len() > 0,
        presses_reading(presses.drop_last()) == Reading::Incomplete,
        presses_reading(presses) == Reading::Corrupted,
    ensures
        session.receiving_all(keybinds, presses) == (Session {
            awaited: 0,
            ..session
        }).handling_keys(keybinds, presses),
{
    lemma_beginning_is_held(session, keybinds, presses.drop_last());
    assert(presses.drop_last().push(presses.last()) =~= presses);
    assert(session.held =~= Seq::<KeyPress>::empty());
}

/// The escape key in the middle of a report breaks out of it: what was held
/// back and the escape key are handled as keys.
pub proof fn law_escape_breaks_out_of_a_report(
    session: Session,
    keybinds: Seq<(KeyEvent, ActionView)>,
    press: KeyPress,
)
    requires
        !session.quit,
        session.awaited > 0,
        session.held.len() > 0,
        session.valid(),
        press.key.spec_sequence_char() == Some(ESC),
    ensures
        session.receiving(keybinds, press) == (Session {
            awaited: 0,
            held: Seq::empty(),
            ..session
        }).handling_keys(keybinds, session.held.push(press)),
{
    let presses = session.held.push(press);
    law_escape_corrupts_a_report(text_of(session.held));
    assert(text_of(presses) =~= text_of(session.held).push(ESC));
}

proof fn lemma_nothing_is_incomplete()
    ensures
        presses_reading(Seq::<KeyPress>::empty()) == Reading::Incomplete,
{
    assert(text_of(Seq::<KeyPress>::empty()) =~= Seq::<char>::empty());
    law_nothing_is_incomplete();
}

/// A loop starts in a valid state.
pub proof fn law_session_starts_valid(sent: Seq<MsgView>)
    ensures
        Session::started(sent).valid(),
{
    lemma_nothing_is_incomplete();
}

/// A loop in a valid state stays in one.
pub proof fn law_session_stays_valid(
    session: Session,
    keybinds: Seq<(KeyEvent, ActionView)>,
    presses: Seq<KeyPress>,
)
    requires
        session.valid(),
    ensures
        session.receiving_all(keybinds, presses).valid(),
    decreases presses.len(),
{
    lemma_nothing_is_incomplete();
    if presses.len() > 0 {
        law_session_stays_valid(session, keybinds, presses.drop_last());
        let before = session.receiving_all(keybinds, presses.drop_last());
        lemma_handling_keys_keeps(
            Session { awaited: 0, held: Seq::empty(), ..before },
            keybinds,
            before.held.push(presses.last()),
        );
    }
}

proof fn lemma_handling_splits(
    session: Session,
    keybinds: Seq<(KeyEvent, ActionView)>,
    first: Seq<KeyPress>,
    second: Seq<KeyPress>,
)
    ensures
        session.handling_keys(keybinds, first + second) == session.handling_keys(
            keybinds,
            first,
        ).handling_keys(keybinds, second),
    decreases second.len(),
{
    if second.len() == 0 {
        assert(first + second =~= first);
    } else {
        lemma_handling_splits(session, keybinds, first, second.drop_last());
        assert((first + second).drop_last() =~= first + second.drop_last());
        assert((first + second).last() == second.last());
    }
}

/// A user who types before any report has begun is heard at once: unless the
/// first press is the escape key, every press is handled as a key.
pub proof fn law_typing_is_handled_as_keys(
    session: Session,
    keybinds: Seq<(KeyEvent, ActionView)>,
    presses: Seq<KeyPress>,
)
    requires
        !session.quit,
        session.held.len() == 0,
        presses.len() > 0,
        presses[0].key.spec_sequence_char() != Some(ESC),
    ensures
        session.receiving_all(keybinds, presses) == (Session {
            awaited: 0,
            ..session
        }).handling_keys(keybinds, presses),
{
    let typing = Session { awaited: 0, ..session };
    let first = presses.take(1);
    let rest = presses.skip(1);
    assert(first + rest =~= presses);
    law_receiving_splits(session, keybinds, first, rest);
    if session.awaited > 0 {
        let nothing = Seq::<KeyPress>::empty();
        assert(first.drop_last() =~= nothing);
        lemma_nothing_is_incomplete();
        assert(presses_reading(first) == Reading::Corrupted) by {
            if is_text(first) {
                assert(first[0].key.spec_sequence_char() is Some);
                law_report_begins_with_escape(text_of(first));
            }
        }
        law_corrupted_report_is_handled_as_keys(session, keybinds, first);
    } else {
        law_presses_are_keys_when_no_report_is_awaited(session, keybinds, first);
        assert(typing =~= session);
    }
    lemma_handling_keys_keeps(typing, keybinds, first);
    law_presses_are_keys_when_no_report_is_awaited(
        typing.handling_keys(keybinds, first),
        keybinds,
        rest,
    );
    lemma_handling_splits(typing, keybinds, first, rest);
}

/// A quit is the last thing that a loop sends, and a loop ends where it sends
/// one.
pub proof fn law_quit_is_sent_last(
    session: Session,
    keybinds: Seq<(KeyEvent, ActionView)>,
    presses: Seq<KeyPress>,
)
    requires
        !session.quit,
    ensures
        ({
            let end = session.receiving_all(keybinds, presses);
            &&& end.quit ==> end.sent.len() > session.sent.len() && end.sent.last()
                == MsgView::Action(ActionView::Quit)
            &&& forall|i: int|
                session.sent.len() <= i < end.sent.len() && #[trigger] end.sent[i]
                    == MsgView::Action(ActionView::Quit) ==> end.quit && i == end.sent.len() - 1
        }),
    decreases presses.len(),
{
    if presses.len() > 0 {
        let before = session.receiving_all(keybinds, presses.drop_last());
        let press = presses.last();
        law_quit_is_sent_last(session, keybinds, presses.drop_last());
        law_sent_only_grows(session, keybinds, presses.drop_last());
        if !before.quit && before.awaited > 0 {
            let all = before.held.push(press);
            let handled = law_keys_are_handled_in_order(
                Session { awaited: 0, held: Seq::empty(), ..before },
                keybinds,
                all,
            );
            let added = key_messages(keybinds, all.take(handled));
            assert forall|i: int|
                0 <= i < added.len() && #[trigger] added[i] == MsgView::Action(
                    ActionView::Quit,
                ) implies asks_to_quit(keybinds, all[i]) by {}
        }
    }
}

/// No key is lost and none is handled out of turn: as long as no report was
/// recognized and the user did not quit, the messages sent are those that the
/// presses ask for, one by one and in order, short of the presses still held
/// back.
pub proof fn law_no_key_is_lost(
    session: Session,
    keybinds: Seq<(KeyEvent, ActionView)>,
    presses: Seq<KeyPress>,
)
    requires
        session.valid(),
        !session.receiving_all(keybinds, presses).quit,
        pixel_dimensions_in(session.receiving_all(keybinds, presses).sent) == pixel_dimensions_in(
            session.sent,
        ),
    ensures
        ({
            let end = session.receiving_all(keybinds, presses);
            let all = session.held + presses;
            let done = all.len() - end.held.len();
            &&& 0 <= done
            &&& end.held == all.skip(done)
            &&& end.sent == session.sent + key_messages(keybinds, all.take(done))
        }),
    decreases presses.len(),
{
    let end = session.receiving_all(keybinds, presses);
    let all = session.held + presses;
    let done = all.len() - end.held.len();
    if presses.len() == 0 {
        assert(all =~= session.held);
        assert(all.skip(0) =~= all);
        assert(session.sent + key_messages(keybinds, all.take(0)) =~= session.sent);
    } else {
        let front = presses.drop_last();
        let press = presses.last();
        let before = session.receiving_all(keybinds, front);
        law_session_stays_valid(session, keybinds, front);
        law_sent_only_grows(session, keybinds, front);
        lemma_sent_only_grows(before, keybinds, press);
        let early = before.sent.skip(session.sent.len() as int);
        let late = end.sent.skip(before.sent.len() as int);
        assert(session.sent + early =~= before.sent);
        assert(before.sent + late =~= end.sent);
        law_extraction_distributes(session.sent, early);
        law_extraction_distributes(before.sent, late);
        assert(pixel_dimensions_in(before.sent) =~= pixel_dimensions_in(session.sent));
        law_no_key_is_lost(session, keybinds, front);
        let all_before = session.held + front;
        let done_before = all_before.len() - before.held.len();
        assert(all =~= all_before.push(press));
        if before.awaited == 0 {
            assert(before.held =~= Seq::<KeyPress>::empty());
            assert(all_before.take(done_before) =~= all_before);
            assert(end.held =~= all.skip(done));
            assert(all.take(done) =~= all);
            assert(end.sent =~= session.sent + key_messages(keybinds, all));
        } else {
            let held = before.held.push(press);
            assert(held =~= all.skip(done_before));
            match presses_reading(held) {
                Reading::Incomplete => {
                    assert(all.take(done) =~= all_before.take(done_before));
                },
                Reading::Complete(pixel_dimensions) => {
                    assert(late =~= seq![MsgView::TerminalPixelDimensions(pixel_dimensions)]);
                    lemma_one_report(pixel_dimensions);
                },
                Reading::Corrupted => {
                    let handled = law_keys_are_handled_in_order(
                        Session { awaited: 0, held: Seq::empty(), ..before },
                        keybinds,
                        held,
                    );
                    assert(held.take(handled) =~= held);
                    assert(end.held =~= all.skip(done));
                    assert(all.take(done) =~= all);
                    assert(all_before.take(done_before) + held =~= all);
                    assert(end.sent =~= session.sent + key_messages(keybinds, all));
                },
            }
        }
    }
}

proof fn lemma_one_report(pixel_dimensions: PixelDimensions)
    ensures
        pixel_dimensions_in(seq![MsgView::TerminalPixelDimensions(pixel_dimensions)]).len() == 1,
{
    let msgs = seq![MsgView::TerminalPixelDimensions(pixel_dimensions)];
    assert(msgs.drop_last() =~= Seq::<MsgView>::empty());
    assert(pixel_dimensions_in(Seq::<MsgView>::empty()).len() == 0);
}

/// The actions extracted from what was sent for keys are those that the keys
/// ask for, in order, and no pixel dimensions are among them.
pub proof fn law_handled_keys_are_extracted(
    keybinds: Seq<(KeyEvent, ActionView)>,
    presses: Seq<KeyPress>,
)
    ensures
        actions_in(key_messages(keybinds, presses)) == presses.map_values(
            |press: KeyPress| action_for(keybinds, press),
        ),
        pixel_dimensions_in(key_messages(keybinds, presses)) == Seq::<PixelDimensions>::empty(),
{
    let actions = presses.map_values(|press: KeyPress| action_for(keybinds, press));
    assert(key_messages(keybinds, presses) =~= action_messages(actions));
    law_sent_actions_are_extracted(actions);
}

/// A key is looked up with its modifiers: the action found is that of the first
/// binding of the whole key event, and none is found just where no binding has
/// that key event.
pub proof fn law_first_binding_of_the_whole_key_counts(
    keybinds: Seq<(KeyEvent, ActionView)>,
    key: KeyEvent,
)
    ensures
        match bound_action(keybinds, key) {
            Some(action) => exists|i: int|
                0 <= i < keybinds.len() && #[trigger] keybinds[i] == (key, action) && forall|j: int|
                    0 <= j < i ==> (#[trigger] keybinds[j]).0 != key,
            None => forall|i: int| 0 <= i < keybinds.len() ==> (#[trigger] keybinds[i]).0 != key,
        },
    decreases keybinds.len(),
{
    if keybinds.len() > 0 {
        if keybinds[0].0 == key {
            assert(keybinds[0] == (key, keybinds[0].1));
        } else {
            let rest = keybinds.drop_first();
            law_first_binding_of_the_whole_key_counts(rest, key);
            match bound_action(rest, key) {
                Some(action) => {
                    let i = choose|i: int|
                        0 <= i < rest.len() && #[trigger] rest[i] == (key, action) && forall|j: int|
                            0 <= j < i ==> (#[trigger] rest[j]).0 != key;
                    assert(keybinds[i + 1] == (key, action));
                    assert forall|j: int| 0 <= j < i + 1 implies (#[trigger] keybinds[j]).0
                        != key by {
                        if j > 0 {
                            assert(rest[j - 1] == keybinds[j]);
                        }
                    }
                },
                None => {
                    assert forall|j: int| 0 <= j < keybinds.len() implies (
                    #[trigger] keybinds[j]).0 != key by {
                        if j > 0 {
                            assert(rest[j - 1] == keybinds[j]);
                        }
                    }
                },
            }
        }
    }
}

/// A press whose key event no binding has asks that its bytes are written, just
/// as they came and whatever the key is.
pub proof fn law_unbound_keys_are_written(
    keybinds: Seq<(KeyEvent, ActionView)>,
    press: KeyPress,
)
    requires
        forall|i: int| 0 <= i < keybinds.len() ==> (#[trigger] keybinds[i]).0 != press.key,
    ensures
        action_for(keybinds, press) == ActionView::Write(press.raw_bytes),
{
    law_first_binding_of_the_whole_key_counts(keybinds, press.key);
}

/// A press whose key event has a binding asks for the action of the first one,
/// whatever its bytes are.
pub proof fn law_bound_keys_ask_for_their_action(
    keybinds: Seq<(KeyEvent, ActionView)>,
    press: KeyPress,
    first: int,
)
    requires
        0 <= first < keybinds.len(),
        keybinds[first].0 == press.key,
        forall|j: int| 0 <= j < first ==> (#[trigger] keybinds[j]).0 != press.key,
    ensures
        action_for(keybinds, press) == keybinds[first].1,
{
    law_first_binding_of_the_whole_key_counts(keybinds, press.key);
}

/// A key that is handled is sent to the server as the action it asks for, and
/// the loop ends just where that is to quit. After a quit nothing changes.
pub proof fn law_a_key_is_sent_as_its_action(
    session: Session,
    keybinds: Seq<(KeyEvent, ActionView)>,
    press: KeyPress,
)
    ensures
        session.quit ==> session.handling_key(keybinds, press) == session,
        !session.quit ==> {
            let end = session.handling_key(keybinds, press);
            &&& end.sent == session.sent.push(MsgView::Action(action_for(keybinds, press)))
            &&& end.quit <==> action_for(keybinds, press) == ActionView::Quit
            &&& end.awaited == session.awaited
            &&& end.held == session.held
        },
{
}

/// Keys are handled one by one.
pub proof fn law_keys_are_handled_one_by_one(
    session: Session,
    keybinds: Seq<(KeyEvent, ActionView)>,
    presses: Seq<KeyPress>,
    press: KeyPress,
)
    ensures
        session.handling_keys(keybinds, Seq::empty()) == session,
        session.handling_keys(keybinds, presses.push(press)) == session.handling_keys(
            keybinds,
            presses,
        ).handling_key(keybinds, press),
{
    assert(presses.push(press).drop_last() =~= presses);
}

/// Presses come in one by one.
pub proof fn law_presses_come_in_one_by_one(
    session: Session,
    keybinds: Seq<(KeyEvent, ActionView)>,
    presses: Seq<KeyPress>,
    press: KeyPress,
)
    ensures
        session.receiving_all(keybinds, Seq::empty()) == session,
        session.receiving_all(keybinds, presses.push(press)) == session.receiving_all(
            keybinds,
            presses,
        ).receiving(keybinds, press),
{
    assert(presses.push(press).drop_last() =~= presses);
}

/// A loop starts with two reports awaited, nothing held back and nothing sent
/// yet.
pub proof fn law_a_loop_starts_by_awaiting_two_reports(sent: Seq<MsgView>)
    ensures
        Session::started(sent).awaited == 2,
        Session::started(sent).held.len() == 0,
        !Session::started(sent).quit,
        Session::started(sent).sent == sent,
{
}

/// Bare keys read as a report just as the characters that they are, with the
/// escape key for the escape character.
pub proof fn law_presses_read_as_their_characters(presses: Seq<KeyPress>, text: Seq<char>)
    requires
        presses.len() == text.len(),
        forall|i: int|
            0 <= i < presses.len() ==> {
                let key = (#[trigger] presses[i]).key;
                &&& !key.modifiers.ctrl && !key.modifiers.alt && !key.modifiers.shift
                &&& key.key == KeyCode::Char(text[i]) || (key.key == KeyCode::Escape && text[i]
                    == '\u{1b}')
            },
    ensures
        presses_reading(presses) == reading(text),
        is_text(presses),
        text_of(presses) == text,
{
    assert forall|i: int| 0 <= i < presses.len() implies (
    #[trigger] presses[i]).key.spec_sequence_char() == Some(text[i]) by {
        law_only_bare_keys_make_control_sequences(presses[i].key, text[i]);
    }
    assert(text_of(presses) =~= text);
}

/// A press with a modifier, or of a key that is neither a character nor escape,
/// corrupts every report it stands in.
pub proof fn law_other_keys_corrupt_a_report(presses: Seq<KeyPress>, at: int)
    requires
        0 <= at < presses.len(),
        ({
            let key = presses[at].key;
            key.modifiers.ctrl || key.modifiers.alt || key.modifiers.shift || key.key is Other
        }),
    ensures
        presses_reading(presses) == Reading::Corrupted,
{
    assert(presses[at].key.spec_sequence_char() is None);
}

/// What one press does. After a quit: nothing. With no report awaited: it is
/// handled as a key. Otherwise it joins what is held back, and that is held
/// further, or sent as a report, or handled as keys with no report awaited any
/// more.
pub proof fn law_a_press_is_handled_held_or_reported(
    session: Session,
    keybinds: Seq<(KeyEvent, ActionView)>,
    press: KeyPress,
)
    ensures
        ({
            let end = session.receiving(keybinds, press);
            let presses = session.held.push(press);
            let given_up = Session {
                awaited: 0,
                held: Seq::empty(),
                quit: false,
                sent: session.sent,
            };
            if session.quit {
                end == session
            } else if session.awaited == 0 {
                &&& end.sent == session.sent.push(MsgView::Action(action_for(keybinds, press)))
                &&& end.quit <==> action_for(keybinds, press) == ActionView::Quit
                &&& end.awaited == 0
                &&& end.held == session.held
            } else {
                match presses_reading(presses) {
                    Reading::Incomplete => {
                        &&& end.held == presses
                        &&& end.sent == session.sent
                        &&& end.awaited == session.awaited
                        &&& !end.quit
                    },
                    Reading::Complete(pixel_dimensions) => {
                        &&& end.held.len() == 0
                        &&& end.sent == session.sent.push(
                            MsgView::TerminalPixelDimensions(pixel_dimensions),
                        )
                        &&& end.awaited == session.awaited - 1
                        &&& !end.quit
                    },
                    Reading::Corrupted => end == given_up.handling_keys(keybinds, presses),
                }
            }
        }),
{
}

/// Right after the start, a press of anything but the bare escape key is sent
/// to the server at once, and nothing is held back.
pub proof fn law_a_first_key_is_sent_at_once(
    sent: Seq<MsgView>,
    keybinds: Seq<(KeyEvent, ActionView)>,
    press: KeyPress,
)
    requires
        ({
            let key = press.key;
            ||| key.key != KeyCode::Escape && key.key != KeyCode::Char('\u{1b}')
            ||| key.modifiers.ctrl || key.modifiers.alt || key.modifiers.shift
        }),
    ensures
        ({
            let end = Session::started(sent).receiving(keybinds, press);
            &&& end.sent == sent.push(MsgView::Action(action_for(keybinds, press)))
            &&& end.held.len() == 0
            &&& end.awaited == 0
            &&& end.quit <==> action_for(keybinds, press) == ActionView::Quit
        }),
{
    let session = Session::started(sent);
    let presses = seq![press];
    assert(Seq::<KeyPress>::empty().push(press) =~= presses);
    law_only_bare_keys_make_control_sequences(press.key, '\u{1b}');
    assert(presses[0] == press);
    law_typing_is_handled_as_keys(session, keybinds, presses);
    law_presses_come_in_one_by_one(session, keybinds, Seq::empty(), press);
    law_keys_are_handled_one_by_one(
        Session { awaited: 0, ..session },
        keybinds,
        Seq::empty(),
        press,
    );
}

/// The keys of an awaited report of the text area's size reach the server as
/// that size, height first and width second, and in no other way.
pub proof fn law_text_area_size_reaches_the_server(
    session: Session,
    keybinds: Seq<(KeyEvent, ActionView)>,
    presses: Seq<KeyPress>,
    kind: Seq<char>,
    height: Seq<char>,
    width: Seq<char>,
)
    requires
        !session.quit,
        session.awaited > 0,
        session.held.len() == 0,
        is_number(kind),
        is_number(height),
        is_number(width),
        decimal(kind) == 4,
        decimal(height) <= usize::MAX,
        decimal(width) <= usize::MAX,
        ({
            let text = seq!['\u{1b}', '['] + kind + seq![';'] + height + seq![';'] + width + seq!['t'];
            &&& presses.len() == text.len()
            &&& forall|i: int|
                0 <= i < presses.len() ==> {
                    let key = (#[trigger] presses[i]).key;
                    &&& !key.modifiers.ctrl && !key.modifiers.alt && !key.modifiers.shift
                    &&& key.key == KeyCode::Char(text[i]) || (key.key == KeyCode::Escape && text[i]
                        == '\u{1b}')
                }
        }),
    ensures
        ({
            let end = session.receiving_all(keybinds, presses);
            &&& end.sent == session.sent.push(
                MsgView::TerminalPixelDimensions(
                    PixelDimensions {
                        text_area_size: Some(
                            SizeInPixels {
                                height: decimal(height) as usize,
                                width: decimal(width) as usize,
                            },
                        ),
                        character_cell_size: None,
                    },
                ),
            )
            &&& end.awaited == session.awaited - 1
            &&& end.held.len() == 0
            &&& !end.quit
        }),
{
    let text = seq!['\u{1b}', '['] + kind + seq![';'] + height + seq![';'] + width + seq!['t'];
    law_presses_read_as_their_characters(presses, text);
    law_text_area_report_is_read(text, kind, height, width);
    law_pixel_report_is_sent_to_the_server(
        session,
        keybinds,
        presses,
        reading(text)->Complete_0,
    );
}

/// The keys of an awaited report of the size of a character cell reach the
/// server as that size, height first and width second, and in no other way.
pub proof fn law_character_cell_size_reaches_the_server(
    session: Session,
    keybinds: Seq<(KeyEvent, ActionView)>,
    presses: Seq<KeyPress>,
    kind: Seq<char>,
    height: Seq<char>,
    width: Seq<char>,
)
    requires
        !session.quit,
        session.awaited > 0,
        session.held.len() == 0,
        is_number(kind),
        is_number(height),
        is_number(width),
        decimal(kind) == 6,
        decimal(height) <= usize::MAX,
        decimal(width) <= usize::MAX,
        ({
            let text = seq!['\u{1b}', '['] + kind + seq![';'] + height + seq![';'] + width + seq!['t'];
            &&& presses.len() == text.len()
            &&& forall|i: int|
                0 <= i < presses.len() ==> {
                    let key = (#[trigger] presses[i]).key;
                    &&& !key.modifiers.ctrl && !key.modifiers.alt && !key.modifiers.shift
                    &&& key.key == KeyCode::Char(text[i]) || (key.key == KeyCode::Escape && text[i]
                        == '\u{1b}')
                }
        }),
    ensures
        ({
            let end = session.receiving_all(keybinds, presses);
            &&& end.sent == session.sent.push(
                MsgView::TerminalPixelDimensions(
                    PixelDimensions {
                        text_area_size: None,
                        character_cell_size: Some(
                            SizeInPixels {
                                height: decimal(height) as usize,
                                width: decimal(width) as usize,
                            },
                        ),
                    },
                ),
            )
            &&& end.awaited == session.awaited - 1
            &&& end.held.len() == 0
            &&& !end.quit
        }),
{
    let text = seq!['\u{1b}', '['] + kind + seq![';'] + height + seq![';'] + width + seq!['t'];
    law_presses_read_as_their_characters(presses, text);
    law_character_cell_report_is_read(text, kind, height, width);
    law_pixel_report_is_sent_to_the_server(
        session,
        keybinds,
        presses,
        reading(text)->Complete_0,
    );
}

/// The bare escape key breaks out of what is held back: all of it, and the
/// escape key, is handled as keys, and no report is awaited any more.
pub proof fn law_the_escape_key_gives_everything_back(
    session: Session,
    keybinds: Seq<(KeyEvent, ActionView)>,
    press: KeyPress,
)
    requires
        !session.quit,
        session.awaited > 0,
        session.held.len() > 0,
        session.valid(),
        press.key.key == KeyCode::Escape,
        !press.key.modifiers.ctrl,
        !press.key.modifiers.alt,
        !press.key.modifiers.shift,
    ensures
        ({
            let end = session.receiving(keybinds, press);
            let presses = session.held.push(press);
            let added = end.sent.len() - session.sent.len();
            &&& end.awaited == 0
            &&& end.held.len() == 0
            &&& end.quit || added == presses.len()
            &&& 0 <= added <= presses.len()
            &&& forall|i: int|
                0 <= i < added ==> #[trigger] end.sent[session.sent.len() + i] == MsgView::Action(
                    action_for(keybinds, presses[i]),
                )
        }),
{
    law_only_bare_keys_make_control_sequences(press.key, '\u{1b}');
    law_escape_breaks_out_of_a_report(session, keybinds, press);
    let presses = session.held.push(press);
    let given_up = Session { awaited: 0, held: Seq::empty(), ..session };
    let handled = law_keys_are_handled_in_order(given_up, keybinds, presses);
}

} // verus!
