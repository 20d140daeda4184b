use tuilet::focus::{on_key, Action, Focus, Key};
use tuilet::fonts::Font;
use tuilet::opts::Opts;
use tuilet::state::{default_font_dir, verify_toilet_exe, StartupError, State};
use tuilet::text::{contains_text, push_decimal, text_le_exec, trim_end_text};

fn opts() -> Opts {
    Opts { font_dirs: vec![], toilet_exe: String::from("toilet") }
}

fn session() -> State {
    let found = vec![
        Font::new("mono9", "/usr/share/figlet"),
        Font::new("Big", "/usr/share/figlet"),
        Font::new("smblock", "/home/me/fonts"),
    ];
    State::new(&opts(), String::from("/usr/share/figlet"), &found).unwrap()
}

#[test]
fn empty_catalog_is_a_startup_error() {
    let r = State::new(&opts(), String::from("/usr/share/figlet"), &Vec::new());
    assert!(matches!(r, Err(StartupError::NoFonts)));
}

#[test]
fn new_session_starts_at_first_font() {
    let st = session();
    assert_eq!(st.font().name, "Big");
    assert_eq!(st.fonts.len(), 3);
    assert_eq!(st.width, 0);
    assert!(st.input.is_empty() && st.flags.is_empty());
}

#[test]
fn next_then_previous_returns() {
    let mut st = session();
    for start in 0..3 {
        st.font_index = start;
        st.next_font();
        st.prev_font();
        assert_eq!(st.font_index, start);
        st.prev_font();
        st.next_font();
        assert_eq!(st.font_index, start);
    }
}

#[test]
fn font_selection_wraps() {
    let mut st = session();
    assert_eq!(st.prev_font().name, "smblock");
    assert_eq!(st.next_font().name, "Big");
    assert_eq!(st.next_font().name, "mono9");
    assert_eq!(st.next_font().name, "smblock");
    assert_eq!(st.next_font().name, "Big");
}

#[test]
fn exec_stores_display_line_and_returns_preview_line() {
    let mut st = session();
    st.input = String::from("He said \"hi\"");
    st.width = 42;
    st.next_font();
    let internal = st.exec();
    assert_eq!(st.toilet_cmdline, "toilet -f \"mono9\" \"He said \\\"hi\\\"\"");
    assert_eq!(internal, "toilet -f \"mono9\" --width 40 \"He said \\\"hi\\\"\"");
}

#[test]
fn failed_run_keeps_earlier_output() {
    let mut st = session();
    st.record_outputs(Some("banner\n\n"), Some("banner\n"));
    assert_eq!(st.output, "banner");
    assert_eq!(st.toilet_cmdline_output, "banner\n");
    st.record_outputs(None, None);
    assert_eq!(st.output, "banner");
    assert_eq!(st.toilet_cmdline_output, "banner\n");
}

#[test]
fn probe_accepts_only_hello() {
    assert!(verify_toilet_exe(Some("hello\n")));
    assert!(verify_toilet_exe(Some("hello")));
    assert!(!verify_toilet_exe(Some("hullo\n")));
    assert!(!verify_toilet_exe(Some(" hello")));
    assert!(!verify_toilet_exe(Some("")));
    assert!(!verify_toilet_exe(None));
}

#[test]
fn default_dir_is_trimmed_output() {
    assert_eq!(default_font_dir("/usr/share/figlet\n"), "/usr/share/figlet");
    assert_eq!(default_font_dir("/x \t\r\n"), "/x");
}

#[test]
fn text_helpers() {
    assert!(contains_text("--gay --width 3", "--width"));
    assert!(!contains_text("--widt", "--width"));
    assert!(contains_text("abc", ""));
    assert!(text_le_exec("big", "big"));
    assert!(text_le_exec("big", "bigger"));
    assert!(!text_le_exec("bigger", "big"));
    assert!(text_le_exec("Zed", "abc"));
    assert_eq!(trim_end_text("a b \u{3000}\u{85}"), "a b");
    let mut s = String::from("n=");
    push_decimal(&mut s, 0);
    push_decimal(&mut s, 1234567);
    assert_eq!(s, "n=01234567");
}

#[test]
fn tab_order_cycles() {
    assert_eq!(Focus::Input.next(), Focus::Font);
    assert_eq!(Focus::CommandLine.next(), Focus::Input);
    assert_eq!(Focus::Input.previous(), Focus::CommandLine);
    for i in 0..5 {
        let f = Focus::at(i);
        assert_eq!(f.next().previous(), f);
        assert_eq!(f.previous().next(), f);
    }
}

#[test]
fn keys_by_focus() {
    assert_eq!(on_key(Focus::Flags, Key::Quit, true), Action::Quit);
    assert_eq!(on_key(Focus::Flags, Key::NextRegion, true), Action::MoveFocus(Focus::Output));
    assert_eq!(on_key(Focus::Input, Key::PreviousRegion, true), Action::MoveFocus(Focus::CommandLine));
    assert_eq!(on_key(Focus::Font, Key::Up, true), Action::PreviousFont);
    assert_eq!(on_key(Focus::Font, Key::Down, true), Action::NextFont);
    assert_eq!(on_key(Focus::Font, Key::Other, true), Action::Nothing);
    assert_eq!(on_key(Focus::Output, Key::Enter, true), Action::CopyOutput);
    assert_eq!(on_key(Focus::CommandLine, Key::Enter, true), Action::CopyCommandLine);
    assert_eq!(on_key(Focus::CommandLine, Key::Enter, false), Action::Nothing);
    assert_eq!(on_key(Focus::Input, Key::Enter, true), Action::Nothing);
    assert_eq!(on_key(Focus::Input, Key::Other, true), Action::Edit);
}

#[test]
fn start_stops_on_failed_probe() {
    let listings = vec![Some(vec![String::from("/d/a.tlf")])];
    let r = State::start(&opts(), Some("hullo"), Some("/d\n"), &listings);
    assert!(matches!(r, Err(StartupError::NotAToilet)));
    let r = State::start(&opts(), None, Some("/d\n"), &listings);
    assert!(matches!(r, Err(StartupError::NotAToilet)));
}

#[test]
fn start_needs_font_dir() {
    let listings = vec![Some(vec![String::from("/d/a.tlf")])];
    let r = State::start(&opts(), Some("hello\n"), None, &listings);
    assert!(matches!(r, Err(StartupError::NoFontDir)));
}

#[test]
fn start_without_fonts_is_fatal() {
    let listings = vec![None, Some(vec![String::from("/x/readme")])];
    let o = Opts { font_dirs: vec![String::from("/x")], toilet_exe: String::from("toilet") };
    let r = State::start(&o, Some("hello\n"), Some("/d\n"), &listings);
    assert!(matches!(r, Err(StartupError::NoFonts)));
}

#[test]
fn start_builds_sorted_catalog() {
    let listings = vec![
        Some(vec![String::from("/d/mono9.tlf"), String::from("/d/Big.flf")]),
        Some(vec![String::from("/x/big.tlf"), String::from("/x/ascii.tlf")]),
    ];
    let o = Opts { font_dirs: vec![String::from("/x")], toilet_exe: String::from("toilet") };
    let st = State::start(&o, Some("hello\n"), Some("/d\n"), &listings).unwrap();
    assert_eq!(st.default_font_dir, "/d");
    let names: Vec<String> = st.fonts.iter().map(|f| f.name.clone()).collect();
    assert_eq!(names, vec!["ascii", "Big", "big", "mono9"]);
    assert_eq!(st.fonts[1].dir, "/d");
    assert_eq!(st.fonts[2].dir, "/x");
    assert_eq!(st.font_index, 0);
}

#[test]
fn start_succeeds_despite_unreadable_dirs() {
    let listings = vec![None, Some(vec![String::from("/x/term.tlf")]), None];
    let o = Opts {
        font_dirs: vec![String::from("/x"), String::from("/gone")],
        toilet_exe: String::from("toilet"),
    };
    let st = State::start(&o, Some("hello\n"), Some("/d\n"), &listings).unwrap();
    assert_eq!(st.fonts.len(), 1);
    assert_eq!(st.font().name, "term");
    assert_eq!(st.font().dir, "/x");
}
