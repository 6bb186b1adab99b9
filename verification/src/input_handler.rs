//! The input loop: keys come in, and what they ask for goes to the server.
//!
//! When the loop starts, it asks the terminal emulator for its pixel geometry.
//! The answers arrive as key presses among those of the user, so as long as an
//! answer is awaited, presses that may belong to one are held back. A whole
//! report is sent to the server in place of its keys. Once the keys turn out to
//! be no report, all of them are handled as keys, and no answer is awaited any
//! more.
use crate::commands::PIXEL_QUERIES;
use crate::keys::InputEvent;
use crate::keys::InputInstruction;
use crate::keys::KeyEvent;
use crate::keys::KeyPress;
use crate::messages::Action;
use crate::messages::ActionView;
use crate::messages::ClientToServerMsg;
use crate::messages::MsgView;
use crate::os_api::ApiView;
use crate::os_api::FakeClientOsApi;
use crate::pixel_report::Reading;
use crate::pixel_report::ReportReader;
use crate::session::action_for;
use crate::session::bound_action;
use crate::session::is_text;
use crate::session::law_quit_ends_the_loop;
use crate::session::law_receiving_splits;
use crate::session::lemma_sent_only_grows;
use crate::session::text_of;
use crate::session::PIXEL_REPORTS;
use crate::session::Session;
use vstd::prelude::*;

verus! {

/// A key and the action that it is bound to in the mode that input is in.
#[derive(Debug, PartialEq, Eq)]
pub struct Keybind {
    pub key: KeyEvent,
    pub action: Action,
}

impl DeepView for Keybind {
    type V = (KeyEvent, ActionView);

    open spec fn deep_view(&self) -> (KeyEvent, ActionView) {
        (self.key, self.action.deep_view())
    }
}

/// Looks up what a key asks for.
pub fn key_to_action(keybinds: &Vec<Keybind>, key: KeyEvent, raw_bytes: &Vec<u8>) -> (action:
    Action)
    ensures
        action.deep_view() == action_for(
            keybinds.deep_view(),
            KeyPress { key, raw_bytes: raw_bytes@ },
        ),
        (forall|i: int| 0 <= i < keybinds.len() ==> (#[trigger] keybinds@[i]).key != key) ==> (
        action matches Action::Write(bytes) && bytes@ == raw_bytes@),
        forall|i: int|
            {
                &&& 0 <= i < keybinds.len()
                &&& (#[trigger] keybinds@[i]).key == key
                &&& forall|j: int| 0 <= j < i ==> (#[trigger] keybinds@[j]).key != key
            } ==> action.deep_view() == keybinds@[i].action.deep_view(),
{
    let ghost binds = keybinds.deep_view();
    assert(binds.skip(0) =~= binds);
    for i in 0..keybinds.len()
        invariant
            binds == keybinds.deep_view(),
            bound_action(binds, key) == bound_action(binds.skip(i as int), key),
            forall|j: int| 0 <= j < i ==> (#[trigger] keybinds@[j]).key != key,
    {
        if keybinds[i].key == key {
            return keybinds[i].action.clone();
        }
        assert(binds.skip(i as int).drop_first() =~= binds.skip(i + 1));
    }
    Action::Write(raw_bytes.clone())
}

/// The record `api` after more was sent, so that `sent` is all that was.
pub open spec fn api_after(api: ApiView, sent: Seq<MsgView>) -> ApiView {
    ApiView {
        events_sent_to_server: sent,
        input_thread_is_blocked: api.input_thread_is_blocked && sent.len()
            == api.events_sent_to_server.len(),
        stdout: api.stdout,
    }
}

/// Handles what comes in, one instruction at a time.
pub struct InputHandler {
    awaited: usize,
    held: Vec<InputInstruction>,
    reader: ReportReader,
    quit: bool,
}

impl InputHandler {
    /// The state of the loop, after `sent` was sent.
    pub closed spec fn session(self, sent: Seq<MsgView>) -> Session {
        Session { awaited: self.awaited as nat, held: self.held.deep_view(), quit: self.quit, sent }
    }

    /// The reader has read just the presses that are held back.
    pub closed spec fn wf(self) -> bool {
        &&& is_text(self.held.deep_view())
        &&& self.reader@ == text_of(self.held.deep_view())
    }

    /// Starts a loop: asks the terminal emulator for its pixel geometry.
    pub fn start(api: &mut FakeClientOsApi) -> (handler: Self)
        ensures
            handler.wf(),
            handler.session(final(api)@.events_sent_to_server) == Session::started(
                old(api)@.events_sent_to_server,
            ),
            final(api)@ == old(api)@.writing(PIXEL_QUERIES@),
            final(api)@.stdout == old(api)@.stdout + seq![
                27u8,
                91,
                49,
                52,
                116,
                27,
                91,
                49,
                54,
                116,
            ],
            final(api)@.events_sent_to_server == old(api)@.events_sent_to_server,
            final(api)@.input_thread_is_blocked == old(api)@.input_thread_is_blocked,
    {
        api.write_to_stdout(&PIXEL_QUERIES);
        let handler = InputHandler {
            awaited: PIXEL_REPORTS,
            held: Vec::new(),
            reader: ReportReader::new(),
            quit: false,
        };
        assert(handler.held.deep_view() =~= Seq::<KeyPress>::empty());
        assert(text_of(handler.held.deep_view()) =~= Seq::<char>::empty());
        handler
    }

    /// Whether the user asked to quit.
    pub fn should_exit(&self) -> (quit: bool)
        ensures
            forall|sent: Seq<MsgView>| quit == (#[trigger] self.session(sent)).quit,
    {
        self.quit
    }

    /// Sends the action that a key asks for to the server.
    fn handle_key(
        &mut self,
        api: &mut FakeClientOsApi,
        keybinds: &Vec<Keybind>,
        instruction: &InputInstruction,
    )
        ensures
            final(self).session(final(api)@.events_sent_to_server) == old(self).session(
                old(api)@.events_sent_to_server,
            ).handling_key(keybinds.deep_view(), instruction.deep_view()),
            final(api)@ == api_after(old(api)@, final(api)@.events_sent_to_server),
            final(self).wf() == old(self).wf(),
    {
        if self.quit {
            return;
        }
        let InputInstruction::KeyEvent(InputEvent::Key(key), raw_bytes) = instruction;
        let action = key_to_action(keybinds, *key, raw_bytes);
        self.quit = matches!(action, Action::Quit);
        api.send_to_server(ClientToServerMsg::Action(action));
    }

    /// Sends the actions that the presses held back ask for to the server, and
    /// awaits no report any more.
    fn release_held(&mut self, api: &mut FakeClientOsApi, keybinds: &Vec<Keybind>)
        ensures
            final(self).session(final(api)@.events_sent_to_server) == (Session {
                awaited: 0,
                held: Seq::empty(),
                ..old(self).session(old(api)@.events_sent_to_server)
            }).handling_keys(
                keybinds.deep_view(),
                old(self).session(old(api)@.events_sent_to_server).held,
            ),
            final(api)@ == api_after(old(api)@, final(api)@.events_sent_to_server),
            final(self).wf(),
    {
        let ghost binds = keybinds.deep_view();
        let mut held: Vec<InputInstruction> = Vec::new();
        std::mem::swap(&mut held, &mut self.held);
        self.awaited = 0;
        self.reader = ReportReader::new();
        let ghost presses = held.deep_view();
        let ghost start = self.session(api@.events_sent_to_server);
        assert(self.held.deep_view() =~= Seq::<KeyPress>::empty());
        assert(text_of(self.held.deep_view()) =~= Seq::<char>::empty());
        for i in 0..held.len()
            invariant
                binds == keybinds.deep_view(),
                presses == held.deep_view(),
                self.session(api@.events_sent_to_server) == start.handling_keys(
                    binds,
                    presses.take(i as int),
                ),
                api@ == api_after(old(api)@, api@.events_sent_to_server),
                api@.events_sent_to_server.len() >= old(api)@.events_sent_to_server.len(),
                self.wf(),
        {
            assert(presses.take(i + 1).drop_last() =~= presses.take(i as int));
            self.handle_key(api, keybinds, &held[i]);
        }
        assert(presses.take(presses.len() as int) =~= presses);
    }

    /// Handles one instruction.
    pub fn handle_instruction(
        &mut self,
        api: &mut FakeClientOsApi,
        keybinds: &Vec<Keybind>,
        instruction: &InputInstruction,
    )
        requires
            old(self).wf(),
        ensures
            final(self).wf(),
            final(self).session(final(api)@.events_sent_to_server) == old(self).session(
                old(api)@.events_sent_to_server,
            ).receiving(keybinds.deep_view(), instruction.deep_view()),
            final(api)@ == api_after(old(api)@, final(api)@.events_sent_to_server),
            final(api)@.events_sent_to_server == old(self).session(
                old(api)@.events_sent_to_server,
            ).receiving(keybinds.deep_view(), instruction.deep_view()).sent,
            final(api)@.stdout == old(api)@.stdout,
            final(api)@.input_thread_is_blocked <==> old(api)@.input_thread_is_blocked
                && final(api)@.events_sent_to_server.len()
                == old(api)@.events_sent_to_server.len(),
    {
        if self.quit || self.awaited == 0 {
            self.handle_key(api, keybinds, instruction);
            return;
        }
        let ghost before = self.held.deep_view();
        let ghost press = instruction.deep_view();
        let InputInstruction::KeyEvent(InputEvent::Key(key), _) = instruction;
        let reading = match key.sequence_char() {
            Some(c) => self.reader.read(c),
            None => Reading::Corrupted,
        };
        self.held.push(instruction.clone());
        proof {
            let presses = before.push(press);
            assert(self.held.deep_view() =~= presses);
            assert(presses.last() == press);
            assert(is_text(presses) <==> press.key.spec_sequence_char() is Some) by {
                assert forall|i: int| 0 <= i < before.len() implies (
                #[trigger] presses[i]).key.spec_sequence_char() is Some by {
                    assert(before[i].key.spec_sequence_char() is Some);
                }
                assert(presses[before.len() as int] == press);
            }
            if let Some(c) = press.key.spec_sequence_char() {
                assert(text_of(presses) =~= text_of(before).push(c));
            }
        }
        match reading {
            Reading::Incomplete => {},
            Reading::Complete(pixel_dimensions) => {
                self.awaited = self.awaited - 1;
                self.held = Vec::new();
                assert(self.held.deep_view() =~= Seq::<KeyPress>::empty());
                assert(text_of(self.held.deep_view()) =~= Seq::<char>::empty());
                api.send_to_server(ClientToServerMsg::TerminalPixelDimensions(pixel_dimensions));
            },
            Reading::Corrupted => {
                self.release_held(api, keybinds);
            },
        }
    }
}

/// Handles `instructions` until the user asks to quit, and says whether that
/// happened.
pub fn input_loop(
    api: &mut FakeClientOsApi,
    keybinds: &Vec<Keybind>,
    instructions: &Vec<InputInstruction>,
) -> (quit: bool)
    ensures
        ({
            let end = Session::started(old(api)@.events_sent_to_server).receiving_all(
                keybinds.deep_view(),
                instructions.deep_view(),
            );
            &&& quit == end.quit
            &&& final(api)@ == api_after(old(api)@.writing(PIXEL_QUERIES@), end.sent)
            &&& final(api)@.events_sent_to_server == end.sent
            &&& final(api)@.stdout == old(api)@.stdout + seq![
                27u8,
                91,
                49,
                52,
                116,
                27,
                91,
                49,
                54,
                116,
            ]
            &&& final(api)@.input_thread_is_blocked <==> old(api)@.input_thread_is_blocked
                && end.sent.len() == old(api)@.events_sent_to_server.len()
        }),
{
    let ghost binds = keybinds.deep_view();
    let ghost presses = instructions.deep_view();
    let ghost start = Session::started(api@.events_sent_to_server);
    let ghost queried = api@.writing(PIXEL_QUERIES@);
    let mut handler = InputHandler::start(api);
    assert(presses.take(0).len() == 0);
    assert(api@ =~= api_after(queried, api@.events_sent_to_server));
    let mut i: usize = 0;
    while i < instructions.len() && !handler.should_exit()
        invariant
            binds == keybinds.deep_view(),
            presses == instructions.deep_view(),
            i <= instructions.len(),
            handler.wf(),
            handler.session(api@.events_sent_to_server) == start.receiving_all(
                binds,
                presses.take(i as int),
            ),
            api@ == api_after(queried, api@.events_sent_to_server),
            api@.events_sent_to_server.len() >= queried.events_sent_to_server.len(),
        decreases instructions.len() - i,
    {
        assert(presses.take(i + 1).drop_last() =~= presses.take(i as int));
        proof {
            lemma_sent_only_grows(
                handler.session(api@.events_sent_to_server),
                binds,
                presses[i as int],
            );
        }
        handler.handle_instruction(api, keybinds, &instructions[i]);
        i = i + 1;
    }
    let quit = handler.should_exit();
    let ghost end = handler.session(api@.events_sent_to_server);
    assert(presses.take(i as int) + presses.skip(i as int) =~= presses);
    proof {
        if end.quit {
            law_receiving_splits(start, binds, presses.take(i as int), presses.skip(i as int));
            law_quit_ends_the_loop(end, binds, presses.skip(i as int));
        } else {
            assert(presses.take(i as int) =~= presses);
        }
    }
    quit
}

/// The view of a binding keeps the whole key event and its action.
pub proof fn law_keybind_view_keeps_everything(keybind: Keybind)
    ensures
        keybind.deep_view().0 == keybind.key,
        keybind.deep_view().1 == keybind.action.deep_view(),
{
}

/// The state of a loop shows just what was sent, and the rest of it does not
/// depend on that.
pub proof fn law_session_shows_what_was_sent(
    handler: InputHandler,
    sent: Seq<MsgView>,
    other: Seq<MsgView>,
)
    ensures
        handler.session(sent).sent == sent,
        handler.session(other) == (Session { sent: other, ..handler.session(sent) }),
{
}

} // verus!
