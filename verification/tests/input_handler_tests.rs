use zellij_client::commands;
use zellij_client::input_handler::{input_loop, InputHandler, Keybind};
use zellij_client::keys::{InputEvent, InputInstruction, KeyCode, KeyEvent, Modifiers};
use zellij_client::messages::{
    extract_actions_sent_to_server, extract_pixel_events_sent_to_server, Action,
    ClientToServerMsg, Direction, PixelDimensions, SizeInPixels,
};
use zellij_client::os_api::{CommandIsExecuting, FakeClientOsApi};

fn key(key: KeyCode, modifiers: Modifiers) -> KeyEvent {
    KeyEvent { key, modifiers }
}

/// The bindings of normal mode that the tests press.
fn keybinds() -> Vec<Keybind> {
    vec![
        Keybind {
            key: key(KeyCode::Char('q'), Modifiers::ctrl()),
            action: Action::Quit,
        },
        Keybind {
            key: key(KeyCode::Char('h'), Modifiers::alt()),
            action: Action::MoveFocusOrTab(Direction::Left),
        },
    ]
}

fn press(raw_bytes: Vec<u8>, event: KeyEvent) -> InputInstruction {
    InputInstruction::KeyEvent(InputEvent::Key(event), raw_bytes)
}

fn escape() -> InputInstruction {
    press(vec![27], key(KeyCode::Escape, Modifiers::none()))
}

fn plain(c: char) -> InputInstruction {
    press(
        c.to_string().as_bytes().to_vec(),
        key(KeyCode::Char(c), Modifiers::none()),
    )
}

fn quit() -> InputInstruction {
    press(
        commands::QUIT.to_vec(),
        key(KeyCode::Char('q'), Modifiers::ctrl()),
    )
}

/// The presses that a text stands for, with the escape character for the
/// escape key.
fn typed(text: &str) -> Vec<InputInstruction> {
    text.chars()
        .map(|c| if c == '\u{1b}' { escape() } else { plain(c) })
        .collect()
}

fn new_api() -> FakeClientOsApi {
    FakeClientOsApi::new(vec![], CommandIsExecuting::new())
}

fn cell(height: usize, width: usize) -> PixelDimensions {
    PixelDimensions {
        character_cell_size: Some(SizeInPixels { height, width }),
        text_area_size: None,
    }
}

fn text_area(height: usize, width: usize) -> PixelDimensions {
    PixelDimensions {
        character_cell_size: None,
        text_area_size: Some(SizeInPixels { height, width }),
    }
}

fn run(stdin_events: &Vec<InputInstruction>) -> (bool, Vec<Action>, Vec<PixelDimensions>) {
    let mut api = new_api();
    let quit = input_loop(&mut api, &keybinds(), stdin_events);
    (
        quit,
        extract_actions_sent_to_server(api.events_sent_to_server()),
        extract_pixel_events_sent_to_server(api.events_sent_to_server()),
    )
}

fn writes(text: &str) -> Vec<Action> {
    text.bytes().map(|b| Action::Write(vec![b])).collect()
}

#[test]
fn quit_breaks_input_loop() {
    let stdin_events = vec![press(
        commands::QUIT.to_vec(),
        KeyEvent {
            key: KeyCode::Char('q'),
            modifiers: Modifiers::ctrl(),
        },
    )];
    let mut client_os_api = new_api();
    assert!(input_loop(&mut client_os_api, &keybinds(), &stdin_events));
    let expected_actions_sent_to_server = vec![Action::Quit];
    let received_actions = extract_actions_sent_to_server(client_os_api.events_sent_to_server());
    assert_eq!(
        expected_actions_sent_to_server, received_actions,
        "All actions sent to server properly"
    );
}

#[test]
fn move_focus_left_in_normal_mode() {
    let stdin_events = vec![
        press(
            commands::MOVE_FOCUS_LEFT_IN_NORMAL_MODE.to_vec(),
            KeyEvent {
                key: KeyCode::Char('h'),
                modifiers: Modifiers::alt(),
            },
        ),
        press(
            commands::QUIT.to_vec(),
            KeyEvent {
                key: KeyCode::Char('q'),
                modifiers: Modifiers::ctrl(),
            },
        ),
    ];
    let mut client_os_api = new_api();
    input_loop(&mut client_os_api, &keybinds(), &stdin_events);
    let expected_actions_sent_to_server =
        vec![Action::MoveFocusOrTab(Direction::Left), Action::Quit];
    let received_actions = extract_actions_sent_to_server(client_os_api.events_sent_to_server());
    assert_eq!(
        expected_actions_sent_to_server, received_actions,
        "All actions sent to server properly"
    );
}

#[test]
fn pixel_info_queried_from_terminal_emulator() {
    let stdin_events = vec![press(
        commands::QUIT.to_vec(),
        KeyEvent {
            key: KeyCode::Char('q'),
            modifiers: Modifiers::ctrl(),
        },
    )];
    let mut client_os_api = new_api();
    input_loop(&mut client_os_api, &keybinds(), &stdin_events);
    let extracted_stdout_buffer = client_os_api.stdout_buffer();
    assert_eq!(
        String::from_utf8(extracted_stdout_buffer),
        Ok(String::from("\u{1b}[14t\u{1b}[16t")),
    );
}

#[test]
fn pixel_info_sent_to_server() {
    let stdin_events = vec![
        press(vec![27], key(KeyCode::Escape, Modifiers::none())),
        press("[".as_bytes().to_vec(), key(KeyCode::Char('['), Modifiers::none())),
        press("6".as_bytes().to_vec(), key(KeyCode::Char('6'), Modifiers::none())),
        press(";".as_bytes().to_vec(), key(KeyCode::Char(';'), Modifiers::none())),
        press("1".as_bytes().to_vec(), key(KeyCode::Char('1'), Modifiers::none())),
        press("0".as_bytes().to_vec(), key(KeyCode::Char('0'), Modifiers::none())),
        press(";".as_bytes().to_vec(), key(KeyCode::Char(';'), Modifiers::none())),
        press("5".as_bytes().to_vec(), key(KeyCode::Char('5'), Modifiers::none())),
        press("t".as_bytes().to_vec(), key(KeyCode::Char('t'), Modifiers::none())),
        press(commands::QUIT.to_vec(), key(KeyCode::Char('q'), Modifiers::ctrl())),
    ];
    let mut client_os_api = new_api();
    input_loop(&mut client_os_api, &keybinds(), &stdin_events);
    let events_sent_to_server = client_os_api.events_sent_to_server();
    let actions_sent_to_server = extract_actions_sent_to_server(events_sent_to_server);
    let pixel_events_sent_to_server = extract_pixel_events_sent_to_server(events_sent_to_server);
    assert_eq!(actions_sent_to_server, vec![Action::Quit]);
    assert_eq!(
        pixel_events_sent_to_server,
        vec![PixelDimensions {
            character_cell_size: Some(SizeInPixels {
                height: 10,
                width: 5
            }),
            text_area_size: None
        }],
    );
}

#[test]
fn corrupted_pixel_info_sent_as_key_events() {
    let stdin_events = vec![
        press(vec![27], key(KeyCode::Escape, Modifiers::none())),
        press("[".as_bytes().to_vec(), key(KeyCode::Char('['), Modifiers::none())),
        press("f".as_bytes().to_vec(), key(KeyCode::Char('f'), Modifiers::none())),
        press(";".as_bytes().to_vec(), key(KeyCode::Char(';'), Modifiers::none())),
        press("1".as_bytes().to_vec(), key(KeyCode::Char('1'), Modifiers::none())),
        press("0".as_bytes().to_vec(), key(KeyCode::Char('0'), Modifiers::none())),
        press(";".as_bytes().to_vec(), key(KeyCode::Char(';'), Modifiers::none())),
        press("5".as_bytes().to_vec(), key(KeyCode::Char('5'), Modifiers::none())),
        press("t".as_bytes().to_vec(), key(KeyCode::Char('t'), Modifiers::none())),
        press(commands::QUIT.to_vec(), key(KeyCode::Char('q'), Modifiers::ctrl())),
    ];
    let mut client_os_api = new_api();
    input_loop(&mut client_os_api, &keybinds(), &stdin_events);
    let events_sent_to_server = client_os_api.events_sent_to_server();
    let actions_sent_to_server = extract_actions_sent_to_server(events_sent_to_server);
    let pixel_events_sent_to_server = extract_pixel_events_sent_to_server(events_sent_to_server);
    assert_eq!(
        actions_sent_to_server,
        vec![
            Action::Write(vec![27]),
            Action::Write(vec![b'[']),
            Action::Write(vec![b'f']),
            Action::Write(vec![b';']),
            Action::Write(vec![b'1']),
            Action::Write(vec![b'0']),
            Action::Write(vec![b';']),
            Action::Write(vec![b'5']),
            Action::Write(vec![b't']),
            Action::Quit
        ]
    );
    assert_eq!(pixel_events_sent_to_server, vec![],);
}

#[test]
fn esc_in_the_middle_of_pixelinfo_breaks_out_of_it() {
    let stdin_events = vec![
        press(vec![27], key(KeyCode::Escape, Modifiers::none())),
        press("[".as_bytes().to_vec(), key(KeyCode::Char('['), Modifiers::none())),
        press(vec![27], key(KeyCode::Escape, Modifiers::none())),
        press(";".as_bytes().to_vec(), key(KeyCode::Char(';'), Modifiers::none())),
        press("1".as_bytes().to_vec(), key(KeyCode::Char('1'), Modifiers::none())),
        press("0".as_bytes().to_vec(), key(KeyCode::Char('0'), Modifiers::none())),
        press(";".as_bytes().to_vec(), key(KeyCode::Char(';'), Modifiers::none())),
        press("5".as_bytes().to_vec(), key(KeyCode::Char('5'), Modifiers::none())),
        press("t".as_bytes().to_vec(), key(KeyCode::Char('t'), Modifiers::none())),
        press(commands::QUIT.to_vec(), key(KeyCode::Char('q'), Modifiers::ctrl())),
    ];
    let mut client_os_api = new_api();
    input_loop(&mut client_os_api, &keybinds(), &stdin_events);
    let events_sent_to_server = client_os_api.events_sent_to_server();
    let actions_sent_to_server = extract_actions_sent_to_server(events_sent_to_server);
    let pixel_events_sent_to_server = extract_pixel_events_sent_to_server(events_sent_to_server);
    assert_eq!(
        actions_sent_to_server,
        vec![
            Action::Write(vec![27]),
            Action::Write(vec![b'[']),
            Action::Write(vec![27]),
            Action::Write(vec![b';']),
            Action::Write(vec![b'1']),
            Action::Write(vec![b'0']),
            Action::Write(vec![b';']),
            Action::Write(vec![b'5']),
            Action::Write(vec![b't']),
            Action::Quit
        ]
    );
    assert_eq!(pixel_events_sent_to_server, vec![],);
}

#[test]
fn nothing_after_a_quit_is_handled() {
    let mut events = typed("ab");
    events.push(quit());
    events.extend(typed("c"));
    events.push(quit());
    let mut expected = writes("ab");
    expected.push(Action::Quit);
    assert_eq!(run(&events), (true, expected, vec![]));
}

#[test]
fn input_that_ends_without_a_quit_is_handled_to_its_end() {
    assert_eq!(run(&typed("ls\n")), (false, writes("ls\n"), vec![]));
    assert_eq!(run(&vec![]), (false, vec![], vec![]));
}

#[test]
fn both_reports_are_sent_to_the_server() {
    let mut events = typed("\u{1b}[4;1080;1920t\u{1b}[6;20;10t");
    events.push(quit());
    assert_eq!(
        run(&events),
        (
            true,
            vec![Action::Quit],
            vec![text_area(1080, 1920), cell(20, 10)]
        )
    );
}

#[test]
fn a_report_that_is_not_awaited_is_handled_as_keys() {
    let text = "\u{1b}[6;3;4t";
    let mut events = typed("\u{1b}[6;1;2t\u{1b}[6;1;2t");
    events.extend(typed(text));
    assert_eq!(
        run(&events),
        (false, writes(text), vec![cell(1, 2), cell(1, 2)])
    );
}

#[test]
fn no_report_is_awaited_after_a_corrupted_one() {
    let text = "\u{1b}[x\u{1b}[6;10;5t";
    assert_eq!(run(&typed(text)), (false, writes(text), vec![]));
}

#[test]
fn a_report_of_another_kind_is_handled_as_keys() {
    let text = "\u{1b}[8;24;80t";
    assert_eq!(run(&typed(text)), (false, writes(text), vec![]));
}

#[test]
fn a_report_with_an_empty_number_is_handled_as_keys() {
    for text in ["\u{1b}[;10;5t", "\u{1b}[6;;5t", "\u{1b}[6;10;t", "\u{1b}[6;10t"] {
        assert_eq!(run(&typed(text)), (false, writes(text), vec![]));
    }
}

#[test]
fn a_number_that_does_not_fit_is_handled_as_keys() {
    let largest = usize::MAX.to_string();
    let text = format!("\u{1b}[6;{};0t", largest);
    assert_eq!(run(&typed(&text)), (false, vec![], vec![cell(usize::MAX, 0)]));
    let text = format!("\u{1b}[6;{}0;0t", largest);
    assert_eq!(run(&typed(&text)), (false, writes(&text), vec![]));
}

#[test]
fn leading_zeros_do_not_matter() {
    assert_eq!(
        run(&typed("\u{1b}[006;0010;05t")),
        (false, vec![], vec![cell(10, 5)])
    );
}

#[test]
fn a_key_with_a_modifier_is_no_part_of_a_report() {
    let mut events = typed("\u{1b}[6;1");
    events.push(press(vec![27, 48], key(KeyCode::Char('0'), Modifiers::alt())));
    let mut expected = writes("\u{1b}[6;1");
    expected.push(Action::Write(vec![27, 48]));
    assert_eq!(run(&events), (false, expected, vec![]));
}

#[test]
fn a_key_that_is_no_character_is_no_part_of_a_report() {
    let events = vec![escape(), press(vec![9, 9], key(KeyCode::Other(3), Modifiers::none()))];
    let expected = vec![Action::Write(vec![27]), Action::Write(vec![9, 9])];
    assert_eq!(run(&events), (false, expected, vec![]));
}

#[test]
fn presses_that_may_be_a_report_are_held_back() {
    assert_eq!(run(&typed("\u{1b}[6;10;5")), (false, vec![], vec![]));
}

#[test]
fn a_quit_among_held_presses_ends_the_loop() {
    let binds = vec![Keybind {
        key: key(KeyCode::Char('['), Modifiers::none()),
        action: Action::Quit,
    }];
    let mut api = new_api();
    assert!(input_loop(&mut api, &binds, &typed("\u{1b}[6xyz")));
    assert_eq!(
        extract_actions_sent_to_server(api.events_sent_to_server()),
        vec![Action::Write(vec![27]), Action::Quit]
    );
}

#[test]
fn the_first_binding_of_a_key_counts() {
    let a = key(KeyCode::Char('a'), Modifiers::none());
    let binds = vec![
        Keybind { key: a, action: Action::Other(vec![1]) },
        Keybind { key: a, action: Action::Quit },
    ];
    let mut api = new_api();
    assert!(!input_loop(&mut api, &binds, &typed("aa")));
    assert_eq!(
        extract_actions_sent_to_server(api.events_sent_to_server()),
        vec![Action::Other(vec![1]), Action::Other(vec![1])]
    );
}

#[test]
fn a_loop_goes_on_where_another_stopped() {
    let mut whole = new_api();
    input_loop(&mut whole, &keybinds(), &typed("\u{1b}[6;10;5tabc"));

    let mut parts = new_api();
    let mut handler = InputHandler::start(&mut parts);
    for instruction in typed("\u{1b}[6;1").iter().chain(typed("0;5tabc").iter()) {
        assert!(!handler.should_exit());
        handler.handle_instruction(&mut parts, &keybinds(), instruction);
    }
    assert_eq!(whole.events_sent_to_server(), parts.events_sent_to_server());
    assert_eq!(whole.stdout_buffer(), parts.stdout_buffer());
}

#[test]
fn a_handler_that_quit_handles_nothing() {
    let mut api = new_api();
    let mut handler = InputHandler::start(&mut api);
    handler.handle_instruction(&mut api, &keybinds(), &quit());
    assert!(handler.should_exit());
    handler.handle_instruction(&mut api, &keybinds(), &plain('a'));
    assert_eq!(
        api.events_sent_to_server(),
        &vec![ClientToServerMsg::Action(Action::Quit)]
    );
}

#[test]
fn a_loop_adds_to_what_was_sent_and_written_before() {
    let earlier = vec![ClientToServerMsg::Other(vec![7])];
    let mut api = FakeClientOsApi::new(earlier, CommandIsExecuting::new());
    api.write_to_stdout(&[1]);
    input_loop(&mut api, &keybinds(), &typed("a"));
    assert_eq!(
        api.events_sent_to_server(),
        &vec![
            ClientToServerMsg::Other(vec![7]),
            ClientToServerMsg::Action(Action::Write(vec![b'a'])),
        ]
    );
    assert_eq!(
        api.stdout_buffer(),
        [&[1][..], &commands::PIXEL_QUERIES[..]].concat()
    );
}
