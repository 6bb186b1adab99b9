//! A client's side of the operating system that keeps a record in place of
//! doing anything: what goes to the server and to standard output is collected
//! and can be read back.
use crate::messages::ClientToServerMsg;
use crate::messages::MsgView;
use std::io::Write;
use vstd::prelude::*;

verus! {

/// The error type of std's I/O traits. It is only passed through: no value of
/// it is made or looked into here.
#[verifier::external_type_specification]
#[verifier::external_body]
pub struct ExIoError(std::io::Error);

/// Whether the input thread waits for the server to carry out a command.
///
/// The flag has one owner. Once it is given to a [`FakeClientOsApi`] it belongs
/// to that API, which changes it, and is read back through
/// [`FakeClientOsApi::command_is_executing`].
#[derive(Debug, PartialEq, Eq)]
pub struct CommandIsExecuting {
    pub input_thread_is_blocked: bool,
}

impl CommandIsExecuting {
    /// No command is being carried out.
    pub fn new() -> (command_is_executing: Self)
        ensures
            !command_is_executing.input_thread_is_blocked,
    {
        CommandIsExecuting { input_thread_is_blocked: false }
    }

    /// Lets the input thread go on.
    pub fn unblock_input_thread(&mut self)
        ensures
            !final(self).input_thread_is_blocked,
    {
        self.input_thread_is_blocked = false;
    }
}

/// Standard output that ends in a buffer.
pub struct FakeStdoutWriter<'a> {
    pub buffer: &'a mut Vec<u8>,
}

impl<'a> FakeStdoutWriter<'a> {
    /// A writer to `buffer`: what the writer leaves is what the owner of the
    /// buffer finds.
    pub fn new(buffer: &'a mut Vec<u8>) -> (writer: Self)
        ensures
            *writer.buffer == *old(buffer),
            *final(writer.buffer) == *final(buffer),
    {
        FakeStdoutWriter { buffer }
    }
}

impl<'a> Write for FakeStdoutWriter<'a> {
    /// Appends all of `buf` to the buffer.
    fn write(&mut self, buf: &[u8]) -> (res: Result<usize, std::io::Error>)
        ensures
            res is Ok,
            res->Ok_0 == buf@.len(),
            final(self).buffer@ == old(self).buffer@ + buf@,
            *final(final(self).buffer) == *final(old(self).buffer),
    {
        self.buffer.extend_from_slice(buf);
        assert(self.buffer@ =~= old(self).buffer@ + buf@);
        Ok(buf.len())
    }

    /// Nothing is held back, so there is nothing to do.
    fn flush(&mut self) -> (res: Result<(), std::io::Error>)
        ensures
            res is Ok,
            *final(self) == *old(self),
    {
        Ok(())
    }
}

/// What a [`FakeClientOsApi`] has recorded.
#[verifier::ext_equal]
pub struct ApiView {
    /// The messages sent to the server, oldest first.
    pub events_sent_to_server: Seq<MsgView>,
    pub input_thread_is_blocked: bool,
    /// The bytes written to standard output since it was last read.
    pub stdout: Seq<u8>,
}

impl ApiView {
    /// The record after `msg` was sent.
    pub open spec fn sending(self, msg: MsgView) -> ApiView {
        ApiView {
            events_sent_to_server: self.events_sent_to_server.push(msg),
            input_thread_is_blocked: false,
            stdout: self.stdout,
        }
    }

    /// The record after `bytes` were written to standard output.
    pub open spec fn writing(self, bytes: Seq<u8>) -> ApiView {
        ApiView {
            events_sent_to_server: self.events_sent_to_server,
            input_thread_is_blocked: self.input_thread_is_blocked,
            stdout: self.stdout + bytes,
        }
    }

    /// The record after standard output was read.
    pub open spec fn draining(self) -> ApiView {
        ApiView {
            events_sent_to_server: self.events_sent_to_server,
            input_thread_is_blocked: self.input_thread_is_blocked,
            stdout: Seq::empty(),
        }
    }

    /// The record after all of `msgs` were sent, in order.
    pub open spec fn sending_all(self, msgs: Seq<MsgView>) -> ApiView
        decreases msgs.len(),
    {
        if msgs.len() == 0 {
            self
        } else {
            self.sending_all(msgs.drop_last()).sending(msgs.last())
        }
    }

    /// The record after all of `chunks` were written, in order.
    pub open spec fn writing_all(self, chunks: Seq<Seq<u8>>) -> ApiView
        decreases chunks.len(),
    {
        if chunks.len() == 0 {
            self
        } else {
            self.writing_all(chunks.drop_last()).writing(chunks.last())
        }
    }
}

/// The operating system as a client sees it, in place of a real one.
#[derive(Debug)]
pub struct FakeClientOsApi {
    events_sent_to_server: Vec<ClientToServerMsg>,
    command_is_executing: CommandIsExecuting,
    stdout_buffer: Vec<u8>,
}

impl View for FakeClientOsApi {
    type V = ApiView;

    closed spec fn view(&self) -> ApiView {
        ApiView {
            events_sent_to_server: self.events_sent_to_server.deep_view(),
            input_thread_is_blocked: self.command_is_executing.input_thread_is_blocked,
            stdout: self.stdout_buffer@,
        }
    }
}

impl FakeClientOsApi {
    /// A record that goes on from `events_sent_to_server`, with nothing on
    /// standard output. The record and the flag belong to the API from here on,
    /// and are read back through [`FakeClientOsApi::events_sent_to_server`] and
    /// [`FakeClientOsApi::command_is_executing`].
    pub fn new(
        events_sent_to_server: Vec<ClientToServerMsg>,
        command_is_executing: CommandIsExecuting,
    ) -> (api: Self)
        ensures
            api@ == (ApiView {
                events_sent_to_server: events_sent_to_server.deep_view(),
                input_thread_is_blocked: command_is_executing.input_thread_is_blocked,
                stdout: Seq::empty(),
            }),
    {
        FakeClientOsApi { events_sent_to_server, command_is_executing, stdout_buffer: Vec::new() }
    }

    /// Takes what was written to standard output since the last call.
    pub fn stdout_buffer(&mut self) -> (bytes: Vec<u8>)
        ensures
            bytes@ == old(self)@.stdout,
            final(self)@ == old(self)@.draining(),
            final(self)@.stdout.len() == 0,
            final(self)@.events_sent_to_server == old(self)@.events_sent_to_server,
            final(self)@.input_thread_is_blocked == old(self)@.input_thread_is_blocked,
    {
        let mut bytes: Vec<u8> = Vec::new();
        std::mem::swap(&mut bytes, &mut self.stdout_buffer);
        bytes
    }

    /// A writer to standard output: whatever it leaves in its buffer is on
    /// standard output afterwards, and nothing else changes.
    pub fn get_stdout_writer(&mut self) -> (writer: FakeStdoutWriter<'_>)
        ensures
            writer.buffer@ == old(self)@.stdout,
            final(self)@ == (ApiView { stdout: (*final(writer.buffer))@, ..old(self)@ }),
    {
        FakeStdoutWriter::new(&mut self.stdout_buffer)
    }

    /// Writes `bytes` to standard output.
    pub fn write_to_stdout(&mut self, bytes: &[u8])
        ensures
            final(self)@ == old(self)@.writing(bytes@),
            final(self)@.stdout == old(self)@.stdout + bytes@,
            final(self)@.events_sent_to_server == old(self)@.events_sent_to_server,
            final(self)@.input_thread_is_blocked == old(self)@.input_thread_is_blocked,
    {
        let mut writer = self.get_stdout_writer();
        let _ = writer.write(bytes);
    }

    /// Records `msg` as sent, and lets the input thread go on.
    pub fn send_to_server(&mut self, msg: ClientToServerMsg)
        ensures
            final(self)@ == old(self)@.sending(msg.deep_view()),
            final(self)@.events_sent_to_server == old(self)@.events_sent_to_server.push(
                msg.deep_view(),
            ),
            !final(self)@.input_thread_is_blocked,
            final(self)@.stdout == old(self)@.stdout,
    {
        self.events_sent_to_server.push(msg);
        self.command_is_executing.unblock_input_thread();
        assert(self@.events_sent_to_server =~= old(self)@.events_sent_to_server.push(
            msg.deep_view(),
        ));
    }

    /// The messages sent so far, oldest first.
    pub fn events_sent_to_server(&self) -> (events: &Vec<ClientToServerMsg>)
        ensures
            events.deep_view() == self@.events_sent_to_server,
    {
        &self.events_sent_to_server
    }

    /// Whether the input thread waits, as things stand now.
    pub fn command_is_executing(&self) -> (command_is_executing: CommandIsExecuting)
        ensures
            command_is_executing.input_thread_is_blocked == self@.input_thread_is_blocked,
    {
        CommandIsExecuting {
            input_thread_is_blocked: self.command_is_executing.input_thread_is_blocked,
        }
    }
}

/// Reading standard output gives back every byte written since the last time
/// it was read, in the order of the writes, however the writes were cut.
pub proof fn law_stdout_gives_back_what_was_written(api: ApiView, chunks: Seq<Seq<u8>>)
    ensures
        api.draining().writing_all(chunks).stdout == chunks.flatten(),
        api.writing_all(chunks) == api.writing(chunks.flatten()),
{
    lemma_writes_append(api, chunks);
    lemma_writes_append(api.draining(), chunks);
}

proof fn lemma_writes_append(api: ApiView, chunks: Seq<Seq<u8>>)
    ensures
        api.writing_all(chunks) == api.writing(chunks.flatten()),
    decreases chunks.len(),
{
    chunks.lemma_flatten_and_flatten_alt_are_equivalent();
    if chunks.len() > 0 {
        lemma_writes_append(api, chunks.drop_last());
        chunks.drop_last().lemma_flatten_and_flatten_alt_are_equivalent();
        assert(api.writing_all(chunks) =~= api.writing(chunks.flatten()));
    } else {
        assert(api.writing(chunks.flatten()) =~= api);
    }
}

/// Messages reach the server complete and in the order in which they were
/// sent, and the input thread may go on once there was one.
pub proof fn law_server_gets_every_message_in_order(api: ApiView, msgs: Seq<MsgView>)
    ensures
        api.sending_all(msgs) == (ApiView {
            events_sent_to_server: api.events_sent_to_server + msgs,
            input_thread_is_blocked: api.input_thread_is_blocked && msgs.len() == 0,
            stdout: api.stdout,
        }),
    decreases msgs.len(),
{
    if msgs.len() > 0 {
        law_server_gets_every_message_in_order(api, msgs.drop_last());
        assert(api.events_sent_to_server + msgs =~= (api.events_sent_to_server
            + msgs.drop_last()).push(msgs.last()));
    } else {
        assert(api.events_sent_to_server + msgs =~= api.events_sent_to_server);
    }
}

/// The server and standard output do not see each other: it makes no
/// difference which of a message and a write comes first, nor does reading
/// standard output touch what was sent.
pub proof fn law_server_and_stdout_are_independent(api: ApiView, msg: MsgView, bytes: Seq<u8>)
    ensures
        api.sending(msg).writing(bytes) == api.writing(bytes).sending(msg),
        api.sending(msg).draining() == api.draining().sending(msg),
        api.sending(msg).stdout == api.stdout,
        api.writing(bytes).events_sent_to_server == api.events_sent_to_server,
        api.draining().events_sent_to_server == api.events_sent_to_server,
{
}

/// Standard output is read once: a second read with no write between finds
/// nothing.
pub proof fn law_stdout_is_read_once(api: ApiView)
    ensures
        api.draining().stdout.len() == 0,
        api.draining().draining() == api.draining(),
{
}

/// A message goes to the end of the record and lets the input thread go on,
/// and standard output stays as it is.
pub proof fn law_sending_appends_and_unblocks(api: ApiView, msg: MsgView)
    ensures
        api.sending(msg).events_sent_to_server == api.events_sent_to_server.push(msg),
        !api.sending(msg).input_thread_is_blocked,
        api.sending(msg).stdout == api.stdout,
{
}

/// Bytes go to the end of standard output, and nothing else changes; reading
/// standard output leaves it empty, and nothing else changes.
pub proof fn law_writing_and_reading_touch_only_stdout(api: ApiView, bytes: Seq<u8>)
    ensures
        api.writing(bytes).stdout == api.stdout + bytes,
        api.writing(bytes).events_sent_to_server == api.events_sent_to_server,
        api.writing(bytes).input_thread_is_blocked == api.input_thread_is_blocked,
        api.draining().stdout.len() == 0,
        api.draining().events_sent_to_server == api.events_sent_to_server,
        api.draining().input_thread_is_blocked == api.input_thread_is_blocked,
{
}

} // verus!
