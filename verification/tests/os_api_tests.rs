use std::io::Write;
use zellij_client::commands;
use zellij_client::messages::{
    extract_actions_sent_to_server, extract_pixel_events_sent_to_server, Action,
    ClientToServerMsg, Direction, PixelDimensions, SizeInPixels,
};
use zellij_client::os_api::{CommandIsExecuting, FakeClientOsApi, FakeStdoutWriter};
use zellij_client::pixel_report::{Reading, ReportReader};

fn pixels(height: usize, width: usize) -> PixelDimensions {
    PixelDimensions {
        text_area_size: Some(SizeInPixels { height, width }),
        character_cell_size: None,
    }
}

#[test]
fn a_writer_appends_to_its_buffer() {
    let mut buffer = vec![1, 2];
    {
        let mut writer = FakeStdoutWriter::new(&mut buffer);
        assert_eq!(writer.write(&[3, 4, 5]).unwrap(), 3);
        assert_eq!(writer.write(&[]).unwrap(), 0);
        assert!(writer.flush().is_ok());
        assert_eq!(writer.write(&[6]).unwrap(), 1);
    }
    assert_eq!(buffer, vec![1, 2, 3, 4, 5, 6]);
}

#[test]
fn standard_output_gives_back_what_was_written() {
    let mut api = FakeClientOsApi::new(vec![], CommandIsExecuting::new());
    assert_eq!(api.stdout_buffer(), Vec::<u8>::new());
    api.get_stdout_writer().write_all(b"one ").unwrap();
    api.write_to_stdout(b"two ");
    let mut writer = api.get_stdout_writer();
    writer.write(b"th").unwrap();
    writer.write(b"ree").unwrap();
    assert_eq!(api.stdout_buffer(), b"one two three".to_vec());
}

#[test]
fn standard_output_is_read_once() {
    let mut api = FakeClientOsApi::new(vec![], CommandIsExecuting::new());
    api.write_to_stdout(&[1, 2]);
    assert_eq!(api.stdout_buffer(), vec![1, 2]);
    assert_eq!(api.stdout_buffer(), Vec::<u8>::new());
    api.write_to_stdout(&[3]);
    assert_eq!(api.stdout_buffer(), vec![3]);
}

#[test]
fn the_server_gets_every_message_in_order() {
    let mut api = FakeClientOsApi::new(vec![ClientToServerMsg::Other(vec![1])], CommandIsExecuting::new());
    api.send_to_server(ClientToServerMsg::Action(Action::Quit));
    api.send_to_server(ClientToServerMsg::TerminalPixelDimensions(pixels(1, 2)));
    assert_eq!(
        api.events_sent_to_server(),
        &vec![
            ClientToServerMsg::Other(vec![1]),
            ClientToServerMsg::Action(Action::Quit),
            ClientToServerMsg::TerminalPixelDimensions(pixels(1, 2)),
        ]
    );
}

#[test]
fn sending_lets_the_input_thread_go_on() {
    let blocked = CommandIsExecuting { input_thread_is_blocked: true };
    let mut api = FakeClientOsApi::new(vec![], blocked);
    api.write_to_stdout(&[1]);
    assert!(api.command_is_executing().input_thread_is_blocked);
    api.send_to_server(ClientToServerMsg::Other(vec![]));
    assert!(!api.command_is_executing().input_thread_is_blocked);
    api.send_to_server(ClientToServerMsg::Other(vec![]));
    assert!(!api.command_is_executing().input_thread_is_blocked);
}

#[test]
fn the_flag_is_read_back_through_the_api() {
    let mut api = FakeClientOsApi::new(
        vec![],
        CommandIsExecuting { input_thread_is_blocked: true },
    );
    let before = api.command_is_executing();
    assert_eq!(before, CommandIsExecuting { input_thread_is_blocked: true });
    api.send_to_server(ClientToServerMsg::Action(Action::Quit));
    assert_eq!(api.command_is_executing(), CommandIsExecuting::new());
}

#[test]
fn a_cloned_message_says_the_same() {
    for msg in [
        ClientToServerMsg::Action(Action::Write(vec![1, 2])),
        ClientToServerMsg::TerminalPixelDimensions(pixels(3, 4)),
        ClientToServerMsg::Other(vec![5]),
    ] {
        assert_eq!(msg.clone(), msg);
    }
}

#[test]
fn a_new_command_state_blocks_nothing() {
    let mut state = CommandIsExecuting::new();
    assert!(!state.input_thread_is_blocked);
    state.input_thread_is_blocked = true;
    state.unblock_input_thread();
    assert!(!state.input_thread_is_blocked);
}

#[test]
fn the_server_and_standard_output_are_independent() {
    let mut one = FakeClientOsApi::new(vec![], CommandIsExecuting::new());
    one.send_to_server(ClientToServerMsg::Action(Action::Quit));
    one.write_to_stdout(&[9]);
    let mut other = FakeClientOsApi::new(vec![], CommandIsExecuting::new());
    other.write_to_stdout(&[9]);
    other.send_to_server(ClientToServerMsg::Action(Action::Quit));
    assert_eq!(one.events_sent_to_server(), other.events_sent_to_server());
    assert_eq!(one.stdout_buffer(), vec![9]);
    assert_eq!(other.stdout_buffer(), vec![9]);
    assert_eq!(one.events_sent_to_server().len(), 1);
}

#[test]
fn each_kind_of_message_is_extracted_in_order() {
    let events = vec![
        ClientToServerMsg::Action(Action::Write(vec![1, 2])),
        ClientToServerMsg::TerminalPixelDimensions(pixels(3, 4)),
        ClientToServerMsg::Other(vec![5]),
        ClientToServerMsg::Action(Action::MoveFocusOrTab(Direction::Right)),
        ClientToServerMsg::Action(Action::Other(vec![6])),
        ClientToServerMsg::TerminalPixelDimensions(pixels(7, 8)),
        ClientToServerMsg::Action(Action::Quit),
    ];
    assert_eq!(
        extract_actions_sent_to_server(&events),
        vec![
            Action::Write(vec![1, 2]),
            Action::MoveFocusOrTab(Direction::Right),
            Action::Other(vec![6]),
            Action::Quit,
        ]
    );
    assert_eq!(
        extract_pixel_events_sent_to_server(&events),
        vec![pixels(3, 4), pixels(7, 8)]
    );
}

#[test]
fn nothing_is_extracted_from_nothing() {
    assert_eq!(extract_actions_sent_to_server(&vec![]), vec![]);
    assert_eq!(extract_pixel_events_sent_to_server(&vec![]), vec![]);
    let events = vec![ClientToServerMsg::Other(vec![1])];
    assert_eq!(extract_actions_sent_to_server(&events), vec![]);
    assert_eq!(extract_pixel_events_sent_to_server(&events), vec![]);
}

#[test]
fn a_reader_is_ready_for_the_next_report() {
    let mut reader = ReportReader::new();
    for _ in 0..2 {
        for c in "\u{1b}[4;12;34".chars() {
            assert_eq!(reader.read(c), Reading::Incomplete);
        }
        assert_eq!(reader.read('t'), Reading::Complete(pixels(12, 34)));
        assert_eq!(reader.read('t'), Reading::Corrupted);
    }
}

#[test]
fn a_corrupting_character_is_told_at_once() {
    for text in ["a", "\u{1b}\u{1b}", "\u{1b}[\u{1b}", "\u{1b}[f", "\u{1b}[4t", "\u{1b}[4;1;2;"] {
        let mut reader = ReportReader::new();
        let last = text.chars().count() - 1;
        for (i, c) in text.chars().enumerate() {
            let expected = if i == last { Reading::Corrupted } else { Reading::Incomplete };
            assert_eq!(reader.read(c), expected);
        }
    }
}

#[test]
fn commands_are_the_bytes_of_their_keys() {
    fn ctrl(c: char) -> u8 {
        c as u8 - b'a' + 1
    }
    assert_eq!(commands::QUIT, [ctrl('q')]);
    assert_eq!(commands::PANE_MODE, [ctrl('p')]);
    assert_eq!(commands::SCROLL_MODE, [ctrl('s')]);
    assert_eq!(commands::RESIZE_MODE, [ctrl('r')]);
    assert_eq!(commands::TAB_MODE, [ctrl('t')]);
    assert_eq!(commands::SCROLL_PAGE_UP_IN_SCROLL_MODE, [ctrl('b')]);
    assert_eq!(commands::SCROLL_PAGE_DOWN_IN_SCROLL_MODE, [ctrl('f')]);
    assert_eq!(commands::MOVE_FOCUS_LEFT_IN_NORMAL_MODE.to_vec(), b"\x1bh".to_vec());
    assert_eq!(commands::MOVE_FOCUS_RIGHT_IN_NORMAL_MODE.to_vec(), b"\x1bl".to_vec());
    assert_eq!(commands::ESC.to_vec(), b"\x1b".to_vec());
    assert_eq!(commands::ENTER.to_vec(), b"\n".to_vec());
    assert_eq!(commands::SPAWN_TERMINAL_IN_PANE_MODE.to_vec(), b"n".to_vec());
    assert_eq!(commands::MOVE_FOCUS_IN_PANE_MODE.to_vec(), b"p".to_vec());
    assert_eq!(commands::SPLIT_DOWN_IN_PANE_MODE.to_vec(), b"d".to_vec());
    assert_eq!(commands::SPLIT_RIGHT_IN_PANE_MODE.to_vec(), b"r".to_vec());
    assert_eq!(commands::TOGGLE_ACTIVE_TERMINAL_FULLSCREEN_IN_PANE_MODE.to_vec(), b"f".to_vec());
    assert_eq!(commands::CLOSE_PANE_IN_PANE_MODE.to_vec(), b"x".to_vec());
    assert_eq!(commands::MOVE_FOCUS_DOWN_IN_PANE_MODE.to_vec(), b"j".to_vec());
    assert_eq!(commands::MOVE_FOCUS_UP_IN_PANE_MODE.to_vec(), b"k".to_vec());
    assert_eq!(commands::MOVE_FOCUS_LEFT_IN_PANE_MODE.to_vec(), b"h".to_vec());
    assert_eq!(commands::MOVE_FOCUS_RIGHT_IN_PANE_MODE.to_vec(), b"l".to_vec());
    assert_eq!(commands::SCROLL_UP_IN_SCROLL_MODE.to_vec(), b"k".to_vec());
    assert_eq!(commands::SCROLL_DOWN_IN_SCROLL_MODE.to_vec(), b"j".to_vec());
    assert_eq!(commands::RESIZE_DOWN_IN_RESIZE_MODE.to_vec(), b"j".to_vec());
    assert_eq!(commands::RESIZE_UP_IN_RESIZE_MODE.to_vec(), b"k".to_vec());
    assert_eq!(commands::RESIZE_LEFT_IN_RESIZE_MODE.to_vec(), b"h".to_vec());
    assert_eq!(commands::RESIZE_RIGHT_IN_RESIZE_MODE.to_vec(), b"l".to_vec());
    assert_eq!(commands::NEW_TAB_IN_TAB_MODE.to_vec(), b"n".to_vec());
    assert_eq!(commands::SWITCH_NEXT_TAB_IN_TAB_MODE.to_vec(), b"l".to_vec());
    assert_eq!(commands::SWITCH_PREV_TAB_IN_TAB_MODE.to_vec(), b"h".to_vec());
    assert_eq!(commands::CLOSE_TAB_IN_TAB_MODE.to_vec(), b"x".to_vec());
    assert_eq!(commands::BRACKETED_PASTE_START.to_vec(), b"\x1b[200~".to_vec());
    assert_eq!(commands::BRACKETED_PASTE_END.to_vec(), b"\x1b[201~".to_vec());
    assert_eq!(commands::SLEEP.to_vec(), b"".to_vec());
    assert_eq!(commands::PIXEL_QUERIES.to_vec(), b"\x1b[14t\x1b[16t".to_vec());
}
