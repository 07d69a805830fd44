use dxos::constants::{BUFFER_HEIGHT, BUFFER_WIDTH};
use dxos::interrupts::{timer_only_mask, InterruptIndex};
use dxos::keyboard::{add_scancode, get_key, next_queued_key, output_buffer_full, Key, KeyDecoder, ScancodeQueue};
use dxos::shell::{find_command, process_key, split_whitespace, Action, Command, Shell};
use dxos::vga_buffer::{backspace, clear_screen, Color, ColorCode, Writer};

fn new_writer() -> Writer {
    Writer::new(ColorCode::new(Color::White, Color::Black))
}

fn row(w: &Writer, r: usize) -> String {
    let mut s = String::new();
    for c in 0..BUFFER_WIDTH {
        s.push(w.char_at(r, c) as char);
    }
    s.trim_end().to_string()
}

fn type_str(sh: &mut Shell, w: &mut Writer, text: &str) {
    for c in text.chars() {
        assert_eq!(process_key(sh, w, Key::Char(c)), Action::Continue);
    }
}

fn enter(sh: &mut Shell, w: &mut Writer) -> Action {
    process_key(sh, w, Key::Char('\n'))
}

fn submit(sh: &mut Shell, w: &mut Writer, text: &str) -> Action {
    type_str(sh, w, text);
    enter(sh, w)
}

fn grid_is_blank(w: &Writer) -> bool {
    (0..BUFFER_HEIGHT).all(|r| (0..BUFFER_WIDTH).all(|c| w.char_at(r, c) == b' '))
}

// ---------------------------------------------------------------- queue

#[test]
fn queue_is_fifo() {
    let mut q = ScancodeQueue::new();
    assert_eq!(q.pop(), None);
    for b in [1u8, 2, 3] {
        assert_eq!(q.push(b), Ok(()));
    }
    assert_eq!(q.pop(), Some(1));
    assert_eq!(q.push(4), Ok(()));
    assert_eq!(q.pop(), Some(2));
    assert_eq!(q.pop(), Some(3));
    assert_eq!(q.pop(), Some(4));
    assert_eq!(q.pop(), None);
}

#[test]
fn queue_holds_one_less_than_its_slots_and_drops_when_full() {
    let mut q = ScancodeQueue::new();
    for b in 0..15u8 {
        assert_eq!(q.push(b), Ok(()));
    }
    assert_eq!(q.push(99), Err(()));
    assert_eq!(q.push(100), Err(()));
    for b in 0..15u8 {
        assert_eq!(q.pop(), Some(b));
    }
    assert_eq!(q.pop(), None);
}

#[test]
fn queue_wraps_around_many_times() {
    let mut q = ScancodeQueue::new();
    for round in 0..100u32 {
        let a = (round % 256) as u8;
        assert_eq!(q.push(a), Ok(()));
        assert_eq!(q.push(a.wrapping_add(1)), Ok(()));
        assert_eq!(q.pop(), Some(a));
        assert_eq!(q.pop(), Some(a.wrapping_add(1)));
    }
    assert_eq!(q.pop(), None);
}

#[test]
fn add_scancode_warns_and_drops_on_full_queue() {
    let mut q = ScancodeQueue::new();
    let mut w = new_writer();
    for b in 0..15u8 {
        add_scancode(&mut q, &mut w, b);
    }
    assert!(grid_is_blank(&w));
    add_scancode(&mut q, &mut w, 200);
    assert_eq!(row(&w, 0), "WARNING: scancode queue full; dropping keyboard input");
    for b in 0..15u8 {
        assert_eq!(q.pop(), Some(b));
    }
    assert_eq!(q.pop(), None);
}

// ------------------------------------------------------------- keyboard

#[test]
fn status_bit_zero_means_data_ready() {
    assert!(output_buffer_full(0x01));
    assert!(output_buffer_full(0x1d));
    assert!(!output_buffer_full(0x1c));
    assert!(!output_buffer_full(0x00));
}

#[test]
fn decoder_turns_scancodes_into_keys() {
    let mut d = KeyDecoder::new();
    assert_eq!(get_key(&mut d, 0x1E), Some(Key::Char('a')));
    assert_eq!(get_key(&mut d, 0x9E), None);
    assert_eq!(get_key(&mut d, 0x1C), Some(Key::Char('\n')));
    assert_eq!(get_key(&mut d, 0xE0), None);
    assert_eq!(get_key(&mut d, 0x48), Some(Key::ArrowUp));
    assert_eq!(get_key(&mut d, 0xE0), None);
    assert_eq!(get_key(&mut d, 0x50), Some(Key::ArrowDown));
}

#[test]
fn decoder_applies_shift() {
    let mut d = KeyDecoder::new();
    assert_eq!(get_key(&mut d, 0x2A), Some(Key::Other));
    assert_eq!(get_key(&mut d, 0x1E), Some(Key::Char('A')));
    assert_eq!(get_key(&mut d, 0xAA), None);
    assert_eq!(get_key(&mut d, 0x1E), Some(Key::Char('a')));
}

#[test]
fn queued_scancodes_are_decoded_in_order() {
    let mut q = ScancodeQueue::new();
    let mut d = KeyDecoder::new();
    for b in [0x1Eu8, 0x9E, 0x30, 0xB0] {
        assert_eq!(q.push(b), Ok(()));
    }
    assert_eq!(next_queued_key(&mut q, &mut d), Some(Key::Char('a')));
    assert_eq!(next_queued_key(&mut q, &mut d), Some(Key::Char('b')));
    assert_eq!(next_queued_key(&mut q, &mut d), None);
    assert_eq!(q.pop(), None);
}

// ----------------------------------------------------------- interrupts

#[test]
fn interrupt_vectors_follow_the_remapping() {
    assert_eq!(InterruptIndex::Timer.as_u8(), 32);
    assert_eq!(InterruptIndex::Keyboard.as_u8(), 33);
    assert_eq!(InterruptIndex::LPT1.as_u8(), 39);
    assert_eq!(InterruptIndex::RTC.as_u8(), 40);
    assert_eq!(InterruptIndex::SecondaryATA.as_u8(), 47);
    assert_eq!(InterruptIndex::Keyboard.as_usize(), 33usize);
}

#[test]
fn only_the_timer_line_is_unmasked() {
    assert_eq!(timer_only_mask(), 0xfe);
}

// --------------------------------------------------------------- display

#[test]
fn color_code_packs_foreground_and_background() {
    assert_eq!(ColorCode::new(Color::White, Color::Black).0, 0x0f);
    assert_eq!(ColorCode::new(Color::Yellow, Color::Blue).0, 0x1e);
}

#[test]
fn write_string_fills_rows_and_wraps() {
    let mut w = new_writer();
    w.write_string("hello\nworld");
    assert_eq!(row(&w, 0), "hello");
    assert_eq!(row(&w, 1), "world");
    assert_eq!((w.row_position, w.column_position), (1, 5));
    let long: String = std::iter::repeat('x').take(BUFFER_WIDTH + 3).collect();
    w.write_string("\n");
    w.write_string(&long);
    assert_eq!(row(&w, 2).len(), BUFFER_WIDTH);
    assert_eq!(row(&w, 3), "xxx");
}

#[test]
fn non_printable_bytes_become_the_replacement_glyph() {
    let mut w = new_writer();
    w.write_string("a\tb\u{e9}");
    assert_eq!(w.char_at(0, 0), b'a');
    assert_eq!(w.char_at(0, 1), 0xfe);
    assert_eq!(w.char_at(0, 2), b'b');
    assert_eq!(w.char_at(0, 3), 0xfe);
    assert_eq!(w.char_at(0, 4), 0xfe);
    assert_eq!(w.column_position, 5);
}

#[test]
fn write_byte_shows_non_printable_bytes_as_the_glyph() {
    let mut w = new_writer();
    w.write_byte(b'a');
    w.write_byte(0x01);
    w.write_byte(b'\r');
    w.write_byte(0x7f);
    w.write_byte(b'b');
    assert_eq!(w.char_at(0, 0), b'a');
    assert_eq!(w.char_at(0, 1), 0xfe);
    assert_eq!(w.char_at(0, 2), 0xfe);
    assert_eq!(w.char_at(0, 3), 0xfe);
    assert_eq!(w.char_at(0, 4), b'b');
    assert_eq!(w.column_position, 5);
}

#[test]
fn writing_past_the_last_row_scrolls() {
    let mut w = new_writer();
    for i in 0..BUFFER_HEIGHT + 2 {
        w.write_string(&format!("line {}\n", i));
    }
    // 27 lines and a trailing newline: lines 0..=2 have scrolled off.
    assert_eq!(row(&w, 0), "line 3");
    assert_eq!(row(&w, BUFFER_HEIGHT - 2), "line 26");
    assert_eq!(row(&w, BUFFER_HEIGHT - 1), "");
    assert_eq!(w.row_position, BUFFER_HEIGHT - 1);
    assert_eq!(w.column_position, 0);
    assert_eq!(w.buffer.len(), BUFFER_HEIGHT * BUFFER_WIDTH);
}

#[test]
fn backspace_stays_on_its_row() {
    let mut w = new_writer();
    w.write_string("ab\n");
    backspace(&mut w);
    assert_eq!((w.row_position, w.column_position), (1, 0));
    assert_eq!(row(&w, 0), "ab");
    w.write_string("cd");
    backspace(&mut w);
    assert_eq!(row(&w, 1), "c");
    assert_eq!(w.column_position, 1);
}

#[test]
fn clear_screen_blanks_everything() {
    let mut w = new_writer();
    w.write_string("some text\nmore");
    clear_screen(&mut w);
    assert!(grid_is_blank(&w));
    assert_eq!((w.row_position, w.column_position), (0, 0));
}

// ------------------------------------------------------------------ shell

#[test]
fn echo_prints_its_arguments() {
    let mut sh = Shell::new();
    let mut w = new_writer();
    assert_eq!(submit(&mut sh, &mut w, "echo hi there"), Action::Continue);
    assert_eq!(row(&w, 0), "echo hi there");
    assert_eq!(row(&w, 1), "hi there");
    assert_eq!(row(&w, 2), ">");
    assert_eq!((w.row_position, w.column_position), (2, 2));
}

#[test]
fn echo_collapses_whitespace() {
    let mut sh = Shell::new();
    let mut w = new_writer();
    submit(&mut sh, &mut w, "  echo \ta   b ");
    assert_eq!(row(&w, 1), "a b");
}

#[test]
fn enter_on_empty_line_only_prompts() {
    let mut sh = Shell::new();
    let mut w = new_writer();
    assert_eq!(enter(&mut sh, &mut w), Action::Continue);
    assert_eq!(sh.history_len(), 0);
    assert_eq!(row(&w, 0), "");
    assert_eq!(row(&w, 1), ">");
    assert_eq!((w.row_position, w.column_position), (1, 2));
}

#[test]
fn clear_command_blanks_the_grid() {
    let mut sh = Shell::new();
    let mut w = new_writer();
    submit(&mut sh, &mut w, "echo x");
    submit(&mut sh, &mut w, "clear");
    // The grid is blanked and the cursor sent home; the fresh prompt then
    // lands at the origin.
    assert_eq!(row(&w, 0), ">");
    for r in 1..BUFFER_HEIGHT {
        assert_eq!(row(&w, r), "");
    }
    assert_eq!((w.row_position, w.column_position), (0, 2));
}

#[test]
fn unknown_command_is_reported() {
    let mut sh = Shell::new();
    let mut w = new_writer();
    submit(&mut sh, &mut w, "foo");
    assert_eq!(row(&w, 1), "Unknown command: foo. Type 'help' for available commands.");
    assert_eq!(sh.history_len(), 1);
}

#[test]
fn commands_are_case_sensitive() {
    let mut sh = Shell::new();
    let mut w = new_writer();
    submit(&mut sh, &mut w, "HELP");
    assert_eq!(row(&w, 1), "Unknown command: HELP. Type 'help' for available commands.");
}

#[test]
fn help_lists_the_command_table() {
    let mut sh = Shell::new();
    let mut w = new_writer();
    submit(&mut sh, &mut w, "help");
    assert_eq!(row(&w, 1), "Available commands:");
    assert_eq!(row(&w, 2), "  help         - Display this help message");
    assert_eq!(row(&w, 3), "  echo         - Echo arguments to the screen");
    assert_eq!(row(&w, 4), "  clear        - Clear the screen");
    assert_eq!(row(&w, 5), "  reboot       - Reboot the system");
    assert_eq!(row(&w, 6), "  history      - Show command history");
    assert_eq!(row(&w, 7), ">");
}

#[test]
fn history_command_lists_entries_oldest_first() {
    let mut sh = Shell::new();
    let mut w = new_writer();
    submit(&mut sh, &mut w, "echo a");
    submit(&mut sh, &mut w, "history");
    assert_eq!(row(&w, 3), "Command history:");
    assert_eq!(row(&w, 4), "  1 echo a");
    assert_eq!(row(&w, 5), "  2 history");
}

#[test]
fn history_numbers_reach_two_digits() {
    let mut sh = Shell::new();
    let mut w = new_writer();
    for i in 0..9 {
        submit(&mut sh, &mut w, &format!("echo {}", i));
    }
    clear_screen(&mut w);
    submit(&mut sh, &mut w, "history");
    assert_eq!(row(&w, 1), "Command history:");
    assert_eq!(row(&w, 2), "  1 echo 0");
    assert_eq!(row(&w, 11), "  10 history");
}

#[test]
fn reboot_asks_for_a_reset_without_prompt() {
    let mut sh = Shell::new();
    let mut w = new_writer();
    assert_eq!(submit(&mut sh, &mut w, "reboot"), Action::Reboot);
    assert_eq!(row(&w, 1), "Rebooting system...");
    assert_eq!(row(&w, 2), "");
}

#[test]
fn typed_line_is_what_enter_submits() {
    let mut sh = Shell::new();
    let mut w = new_writer();
    type_str(&mut sh, &mut w, "abc def!");
    assert_eq!(sh.line(), b"abc def!");
    enter(&mut sh, &mut w);
    assert_eq!(sh.line(), b"");
    assert_eq!(sh.history_entry(0), b"abc def!".to_vec());
}

#[test]
fn backspace_edits_the_line() {
    let mut sh = Shell::new();
    let mut w = new_writer();
    type_str(&mut sh, &mut w, "echo ab");
    process_key(&mut sh, &mut w, Key::Char('\u{8}'));
    process_key(&mut sh, &mut w, Key::Char('\u{7f}'));
    process_key(&mut sh, &mut w, Key::Char('c'));
    assert_eq!(sh.line(), b"echo c");
    assert_eq!(row(&w, 0), "echo c");
    enter(&mut sh, &mut w);
    assert_eq!(row(&w, 1), "c");
}

#[test]
fn backspace_on_empty_line_does_nothing() {
    let mut sh = Shell::new();
    let mut w = new_writer();
    w.write_string("> ");
    process_key(&mut sh, &mut w, Key::Char('\u{8}'));
    assert_eq!(row(&w, 0), ">");
    assert_eq!(w.column_position, 2);
    assert_eq!(sh.line(), b"");
}

#[test]
fn full_line_buffer_is_discarded() {
    let mut sh = Shell::new();
    let mut w = new_writer();
    let text: String = std::iter::repeat('z').take(127).collect();
    type_str(&mut sh, &mut w, &text);
    assert_eq!(sh.line().len(), 127);
    process_key(&mut sh, &mut w, Key::Char('z'));
    assert_eq!(sh.line(), b"");
    assert_eq!(row(&w, 2), "[buffer full]");
    assert_eq!(row(&w, 3), ">");
}

#[test]
fn other_keys_are_ignored() {
    let mut sh = Shell::new();
    let mut w = new_writer();
    type_str(&mut sh, &mut w, "ab");
    assert_eq!(process_key(&mut sh, &mut w, Key::Other), Action::Continue);
    assert_eq!(sh.line(), b"ab");
    assert_eq!(row(&w, 0), "ab");
}

#[test]
fn non_printable_characters_are_not_typed() {
    let mut sh = Shell::new();
    let mut w = new_writer();
    type_str(&mut sh, &mut w, "ab");
    for c in ['\u{1b}', '\t', '\u{e9}', '\u{1}'] {
        assert_eq!(process_key(&mut sh, &mut w, Key::Char(c)), Action::Continue);
    }
    assert_eq!(sh.line(), b"ab");
    assert_eq!(row(&w, 0), "ab");
    assert_eq!(w.column_position, 2);
    enter(&mut sh, &mut w);
    assert_eq!(sh.history_entry(0), b"ab".to_vec());
}

#[test]
fn repeated_line_is_recalled_newest_first() {
    let mut sh = Shell::new();
    let mut w = new_writer();
    for _ in 0..3 {
        submit(&mut sh, &mut w, "echo same");
    }
    assert_eq!(sh.history_len(), 3);
    for _ in 0..3 {
        process_key(&mut sh, &mut w, Key::ArrowUp);
        assert_eq!(sh.line(), b"echo same");
        assert!(sh.is_browsing());
    }
    // No older entry: a further arrow-up changes nothing.
    process_key(&mut sh, &mut w, Key::ArrowUp);
    assert_eq!(sh.line(), b"echo same");
}

#[test]
fn arrow_up_walks_back_through_history() {
    let mut sh = Shell::new();
    let mut w = new_writer();
    submit(&mut sh, &mut w, "echo 1");
    submit(&mut sh, &mut w, "echo 2");
    submit(&mut sh, &mut w, "echo 3");
    process_key(&mut sh, &mut w, Key::ArrowUp);
    assert_eq!(sh.line(), b"echo 3");
    assert_eq!(row(&w, w.row_position), "> echo 3");
    process_key(&mut sh, &mut w, Key::ArrowUp);
    assert_eq!(sh.line(), b"echo 2");
    assert_eq!(row(&w, w.row_position), "> echo 2");
    process_key(&mut sh, &mut w, Key::ArrowUp);
    assert_eq!(sh.line(), b"echo 1");
    process_key(&mut sh, &mut w, Key::ArrowUp);
    assert_eq!(sh.line(), b"echo 1");
    process_key(&mut sh, &mut w, Key::ArrowDown);
    assert_eq!(sh.line(), b"echo 2");
    process_key(&mut sh, &mut w, Key::ArrowDown);
    assert_eq!(sh.line(), b"echo 3");
    process_key(&mut sh, &mut w, Key::ArrowDown);
    assert_eq!(sh.line(), b"");
    assert!(!sh.is_browsing());
    assert_eq!(row(&w, w.row_position), ">");
}

#[test]
fn history_ring_overwrites_the_oldest() {
    let mut sh = Shell::new();
    let mut w = new_writer();
    for i in 0..12 {
        submit(&mut sh, &mut w, &format!("echo {}", i));
    }
    assert_eq!(sh.history_len(), 10);
    assert_eq!(sh.history_entry(0), b"echo 2".to_vec());
    assert_eq!(sh.history_entry(9), b"echo 11".to_vec());
    let mut seen = Vec::new();
    for _ in 0..12 {
        process_key(&mut sh, &mut w, Key::ArrowUp);
        seen.push(sh.line().to_vec());
    }
    for i in 0..10 {
        assert_eq!(seen[i], format!("echo {}", 11 - i).into_bytes());
    }
    // At the oldest entry arrow-up stays put.
    assert_eq!(seen[10], b"echo 2".to_vec());
    assert_eq!(seen[11], b"echo 2".to_vec());
    process_key(&mut sh, &mut w, Key::ArrowDown);
    assert_eq!(sh.line(), b"echo 3");
}

#[test]
fn arrow_up_with_empty_history_is_a_no_op() {
    let mut sh = Shell::new();
    let mut w = new_writer();
    type_str(&mut sh, &mut w, "ab");
    process_key(&mut sh, &mut w, Key::ArrowUp);
    assert_eq!(sh.line(), b"ab");
    assert!(!sh.is_browsing());
    assert_eq!(row(&w, 0), "ab");
    assert_eq!(w.column_position, 2);
}

#[test]
fn arrow_up_then_down_empties_the_line() {
    let mut sh = Shell::new();
    let mut w = new_writer();
    submit(&mut sh, &mut w, "echo x");
    type_str(&mut sh, &mut w, "partial");
    process_key(&mut sh, &mut w, Key::ArrowUp);
    assert_eq!(sh.line(), b"echo x");
    process_key(&mut sh, &mut w, Key::ArrowDown);
    assert_eq!(sh.line(), b"");
    assert_eq!(row(&w, 2), ">");
}

#[test]
fn typing_ends_history_recall() {
    let mut sh = Shell::new();
    let mut w = new_writer();
    submit(&mut sh, &mut w, "echo 1");
    submit(&mut sh, &mut w, "echo 2");
    process_key(&mut sh, &mut w, Key::ArrowUp);
    process_key(&mut sh, &mut w, Key::ArrowUp);
    process_key(&mut sh, &mut w, Key::Char('x'));
    assert!(!sh.is_browsing());
    assert_eq!(sh.line(), b"echo 1x");
    process_key(&mut sh, &mut w, Key::ArrowUp);
    assert_eq!(sh.line(), b"echo 2");
}

// --------------------------------------------------------------- helpers

#[test]
fn split_whitespace_finds_tokens() {
    let s = b"  a\tbb  c ";
    assert_eq!(split_whitespace(s), vec![(2, 3), (4, 6), (8, 9)]);
    assert_eq!(split_whitespace(b""), vec![]);
    assert_eq!(split_whitespace(b" \t "), vec![]);
}

#[test]
fn split_whitespace_keeps_at_most_eight_tokens() {
    let s = b"a b c d e f g h i j";
    let spans = split_whitespace(s);
    assert_eq!(spans.len(), 8);
    assert_eq!(spans[7], (14, 15));
}

#[test]
fn find_command_matches_exact_names() {
    assert_eq!(find_command(b"help"), Some(Command::Help));
    assert_eq!(find_command(b"echo"), Some(Command::Echo));
    assert_eq!(find_command(b"clear"), Some(Command::Clear));
    assert_eq!(find_command(b"reboot"), Some(Command::Reboot));
    assert_eq!(find_command(b"history"), Some(Command::History));
    assert_eq!(find_command(b"hel"), None);
    assert_eq!(find_command(b"Help"), None);
    assert_eq!(find_command(b""), None);
}
