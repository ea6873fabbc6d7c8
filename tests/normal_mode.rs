use libbrz::buffer::Buffer;
use libbrz::key::Key;
use libbrz::mode::Mode;
use libbrz::normal::Normal;
use libbrz::state::State;

fn chars(s: &str) -> Vec<char> {
    s.chars().collect()
}

fn session(text: &str) -> State {
    State::new(vec![Buffer::new(chars(text))])
}

fn send(state: &mut State, keys: &str) {
    for c in keys.chars() {
        state.dispatch(Key::Char(c));
    }
}

fn text_of(state: &State) -> String {
    state.buffers[0].text.iter().collect()
}

fn sel(state: &State) -> (usize, usize) {
    (state.buffers[0].anchor, state.buffers[0].head)
}

#[test]
fn digits_accumulate_decimal_value() {
    let mut st = session("abc");
    send(&mut st, "123");
    assert_eq!(st.num_prefix, Some(123));
    assert_eq!(text_of(&st), "abc");
    assert_eq!(sel(&st), (0, 0));
}

#[test]
fn digits_saturate() {
    let mut st = session("abc");
    send(&mut st, "999999999999999999999999999999");
    assert_eq!(st.num_prefix, Some(usize::MAX));
    send(&mut st, "7");
    assert_eq!(st.num_prefix, Some(usize::MAX));
}

#[test]
fn leading_zero_accumulates() {
    let mut st = session("abc");
    send(&mut st, "05");
    assert_eq!(st.num_prefix, Some(5));
}

#[test]
fn count_cleared_after_noop_keys() {
    let mut st = session("abc");
    send(&mut st, "42");
    st.dispatch(Key::Esc);
    assert_eq!(st.num_prefix, None);
    send(&mut st, "42z");
    assert_eq!(st.num_prefix, None);
    assert_eq!(text_of(&st), "abc");
}

#[test]
fn move_and_extend_left_right() {
    let mut st = session("hello world");
    st.buffers[0].anchor = 2;
    st.buffers[0].head = 5;
    send(&mut st, "h");
    assert_eq!(sel(&st), (4, 4));

    let mut st = session("hello world");
    st.buffers[0].anchor = 2;
    st.buffers[0].head = 5;
    send(&mut st, "H");
    assert_eq!(sel(&st), (2, 4));

    let mut st = session("hello world");
    st.buffers[0].anchor = 2;
    st.buffers[0].head = 5;
    send(&mut st, "3l");
    assert_eq!(sel(&st), (8, 8));

    let mut st = session("hello world");
    st.buffers[0].anchor = 2;
    st.buffers[0].head = 5;
    send(&mut st, "3L");
    assert_eq!(sel(&st), (2, 8));
}

#[test]
fn arrow_keys_move() {
    let mut st = session("ab\ncd");
    st.dispatch(Key::Right);
    assert_eq!(sel(&st), (1, 1));
    st.dispatch(Key::Down);
    assert_eq!(sel(&st), (4, 4));
    st.dispatch(Key::Up);
    assert_eq!(sel(&st), (1, 1));
    st.dispatch(Key::Left);
    assert_eq!(sel(&st), (0, 0));
}

#[test]
fn move_and_extend_up_down() {
    let mut st = session("abcd\nef\nghij");
    st.buffers[0].anchor = 1;
    st.buffers[0].head = 3;
    send(&mut st, "j");
    // column 3 does not fit on "ef": the end of that line
    assert_eq!(sel(&st), (7, 7));
    send(&mut st, "j");
    assert_eq!(sel(&st), (10, 10));
    send(&mut st, "K");
    assert_eq!(sel(&st), (10, 7));
    send(&mut st, "k");
    assert_eq!(sel(&st), (2, 2));
    send(&mut st, "2J");
    assert_eq!(sel(&st), (2, 10));
}

#[test]
fn move_and_extend_words() {
    let mut st = session("one two  three");
    send(&mut st, "w");
    assert_eq!(sel(&st), (4, 4));
    send(&mut st, "W");
    assert_eq!(sel(&st), (4, 9));
    send(&mut st, "b");
    assert_eq!(sel(&st), (4, 4));
    send(&mut st, "2w");
    assert_eq!(sel(&st), (14, 14));
    send(&mut st, "2B");
    assert_eq!(sel(&st), (14, 4));
}

#[test]
fn counted_delete_is_one_undo_step() {
    let mut st = session("abcdef");
    send(&mut st, "3d");
    assert_eq!(text_of(&st), "def");
    assert_eq!(st.yanked, chars("abc"));
    assert_eq!(st.buffers[0].undo.len(), 1);
    send(&mut st, "u");
    assert_eq!(text_of(&st), "abcdef");
}

#[test]
fn separate_deletes_are_separate_undo_steps() {
    let mut st = session("abcdef");
    send(&mut st, "ddd");
    assert_eq!(text_of(&st), "def");
    assert_eq!(st.buffers[0].undo.len(), 3);
    send(&mut st, "u");
    assert_eq!(text_of(&st), "cdef");
    send(&mut st, "2u");
    assert_eq!(text_of(&st), "abcdef");
    send(&mut st, "U");
    assert_eq!(text_of(&st), "bcdef");
}

#[test]
fn delete_after_yank_overwrites_clipboard() {
    let mut st = session("abc");
    send(&mut st, "y");
    assert_eq!(st.yanked, chars("a"));
    send(&mut st, "ld");
    assert_eq!(st.yanked, chars("b"));
    assert_eq!(text_of(&st), "ac");
    send(&mut st, "p");
    assert_eq!(text_of(&st), "acb");
    assert_eq!(sel(&st), (2, 2));
}

#[test]
fn paste_extend_grows_selection() {
    let mut st = session("abc");
    send(&mut st, "y");
    send(&mut st, "P");
    assert_eq!(text_of(&st), "aabc");
    assert_eq!(sel(&st), (0, 1));
}

#[test]
fn no_buffer_ignores_keys() {
    let mut st = State::new(Vec::new());
    st.dispatch(Key::Char('h'));
    st.dispatch(Key::Char('d'));
    st.dispatch(Key::Char('3'));
    st.dispatch(Key::Char('i'));
    assert_eq!(st.num_prefix, None);
    assert_eq!(st.cur, None);
    assert_eq!(st.mode.name(), "normal");
    assert!(st.yanked.is_empty());
}

#[test]
fn no_buffer_colon_enters_command_mode() {
    let mut st = State::new(Vec::new());
    st.dispatch(Key::Char(':'));
    assert_eq!(st.mode.name(), "command");
}

#[test]
fn no_buffer_ctrl_p_enters_find_mode() {
    let mut st = State::new(Vec::new());
    st.dispatch(Key::Ctrl('p'));
    assert_eq!(st.mode.name(), "find");
}

#[test]
fn commit_twice_is_commit_once() {
    let mut b = Buffer::new(chars("abc"));
    b.delete(1);
    b.maybe_commit_undo_point();
    assert_eq!(b.undo.len(), 1);
    b.maybe_commit_undo_point();
    assert_eq!(b.undo.len(), 1);
    assert!(!b.dirty);
}

#[test]
fn count_move_then_delete() {
    let mut st = session("abcdef");
    assert_eq!(st.num_prefix, None);
    send(&mut st, "2ld");
    assert_eq!(text_of(&st), "abdef");
    assert_eq!(st.yanked, chars("c"));
    assert_eq!(sel(&st), (2, 2));
    assert_eq!(st.buffers[0].undo.len(), 1);
    assert_eq!(st.num_prefix, None);
}

#[test]
fn goto_line_with_count() {
    let mut st = session("ab\ncd\nef");
    send(&mut st, "3g");
    assert_eq!(sel(&st), (6, 6));
    send(&mut st, "1g");
    assert_eq!(sel(&st), (0, 0));
    send(&mut st, "9g");
    assert_eq!(sel(&st), (6, 6));
    assert_eq!(st.mode.name(), "normal");
}

#[test]
fn g_without_count_enters_goto_mode() {
    let mut st = session("ab");
    send(&mut st, "g");
    assert_eq!(st.mode.name(), "goto");
    st.dispatch(Key::Esc);
    assert_eq!(st.mode.name(), "normal");
}

#[test]
fn change_deletes_and_enters_insert_mode() {
    let mut st = session("abc");
    send(&mut st, "c");
    assert_eq!(text_of(&st), "bc");
    assert_eq!(st.yanked, chars("a"));
    assert_eq!(st.mode.name(), "insert");
}

#[test]
fn line_selection() {
    let mut st = session("ab\ncd\nef");
    send(&mut st, "l");
    send(&mut st, "x");
    assert_eq!(sel(&st), (0, 2));
    send(&mut st, "X");
    assert_eq!(sel(&st), (0, 5));
    send(&mut st, "d");
    assert_eq!(text_of(&st), "ef");
}

#[test]
fn select_all_reverse_collapse() {
    let mut st = session("abc");
    send(&mut st, "%");
    assert_eq!(sel(&st), (0, 3));
    send(&mut st, "'");
    assert_eq!(sel(&st), (3, 0));
    st.dispatch(Key::Alt(';'));
    assert_eq!(sel(&st), (0, 3));
    send(&mut st, " ");
    assert_eq!(sel(&st), (3, 3));
}

#[test]
fn ctrl_p_with_buffer_enters_find_mode() {
    let mut st = session("abc");
    st.dispatch(Key::Ctrl('p'));
    assert_eq!(st.mode.name(), "find");
}

#[test]
fn key_table_fallback() {
    let mut st = session("abc");
    send(&mut st, "i");
    assert_eq!(st.mode.name(), "insert");
    st.dispatch(Key::Esc);
    send(&mut st, ":");
    assert_eq!(st.mode.name(), "command");
    send(&mut st, "wq");
    assert!(matches!(&st.mode, Mode::Command(line) if *line == chars("wq")));
    st.dispatch(Key::Esc);
    assert_eq!(st.mode.name(), "normal");
    assert_eq!(text_of(&st), "abc");
}

#[test]
fn normal_mode_name_and_table() {
    assert_eq!(Normal.name(), "normal");
    assert_eq!(Normal.key_mappings().entries.len(), 2);
}

#[test]
fn zero_count_deletes_nothing() {
    let mut st = session("abc");
    send(&mut st, "0d");
    assert_eq!(text_of(&st), "abc");
    assert_eq!(st.buffers[0].undo.len(), 0);
    assert!(st.yanked.is_empty());
}


#[test]
fn normal_mode_actions() {
    assert_eq!(Normal.actions().len(), 4);
}
