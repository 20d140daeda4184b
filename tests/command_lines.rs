use tuilet::command::{command_lines, escape_text};
use tuilet::fonts::Font;

// Undo double-quote escaping the way a POSIX shell does.
fn unquote(body: &str) -> String {
    let mut out = String::new();
    let mut chars = body.chars().peekable();
    while let Some(c) = chars.next() {
        if c == '\\' {
            match chars.peek() {
                Some(&n) if n == '\\' || n == '"' || n == '$' || n == '`' => {
                    out.push(n);
                    chars.next();
                }
                _ => out.push('\\'),
            }
        } else {
            out.push(c);
        }
    }
    out
}

fn mono9() -> Font {
    Font::new("mono9", "/usr/share/figlet")
}

#[test]
fn display_line_with_quotes_in_input() {
    let (display, _) = command_lines("toilet", "", &mono9(), "/usr/share/figlet", "He said \"hi\"", 0);
    assert_eq!(display, "toilet -f \"mono9\" \"He said \\\"hi\\\"\"");
}

#[test]
fn preview_line_gets_width_of_terminal() {
    let (display, internal) =
        command_lines("toilet", "", &mono9(), "/usr/share/figlet", "He said \"hi\"", 42);
    assert_eq!(internal, "toilet -f \"mono9\" --width 40 \"He said \\\"hi\\\"\"");
    assert_eq!(display, "toilet -f \"mono9\" \"He said \\\"hi\\\"\"");
}

#[test]
fn unknown_width_adds_no_width_flag() {
    let (display, internal) = command_lines("toilet", "", &mono9(), "/usr/share/figlet", "x", 0);
    assert_eq!(display, internal);
    assert!(!internal.contains("--width"));
}

#[test]
fn flags_with_width_keep_preview_equal_to_display() {
    for width in [0usize, 3, 80, 200] {
        let (display, internal) =
            command_lines("toilet", "--width 10", &mono9(), "/usr/share/figlet", "x", width);
        assert_eq!(display, internal);
        assert_eq!(display, "toilet --width 10 -f \"mono9\" \"x\"");
    }
}

#[test]
fn flags_without_width_get_width_minus_two() {
    for width in [3usize, 10, 80, 1000] {
        let (display, internal) =
            command_lines("toilet", "--gay -w 3", &mono9(), "/usr/share/figlet", "x", width);
        let fragment = format!(" --width {}", width - 2);
        assert!(internal.contains(&fragment));
        assert_eq!(internal, format!("toilet --gay -w 3 -f \"mono9\"{} \"x\"", fragment));
        assert!(!display.contains("--width"));
    }
}

#[test]
fn narrowest_terminals() {
    let (_, two) = command_lines("toilet", "", &mono9(), "/usr/share/figlet", "x", 2);
    assert_eq!(two, "toilet -f \"mono9\" --width 0 \"x\"");
    let (_, one) = command_lines("toilet", "", &mono9(), "/usr/share/figlet", "x", 1);
    assert_eq!(one, "toilet -f \"mono9\" --width -1 \"x\"");
}

#[test]
fn font_outside_default_dir_gets_dir_flag() {
    let font = Font::new("smblock", "/home/me/fonts");
    let (display, internal) =
        command_lines("toilet", "-F border", &font, "/usr/share/figlet", "hey", 20);
    assert_eq!(display, "toilet -F border -f \"smblock\" -d \"/home/me/fonts\" \"hey\"");
    assert_eq!(
        internal,
        "toilet -F border -f \"smblock\" -d \"/home/me/fonts\" --width 18 \"hey\""
    );
    assert_eq!(display.matches(" -d \"/home/me/fonts\"").count(), 1);
    assert_eq!(internal.matches(" -d \"/home/me/fonts\"").count(), 1);
}

#[test]
fn font_in_default_dir_gets_no_dir_flag() {
    let (display, internal) = command_lines("toilet", "", &mono9(), "/usr/share/figlet", "hey", 20);
    assert!(!display.contains("-d"));
    assert!(!internal.contains("-d"));
}

#[test]
fn escaping_doubles_backslashes_and_guards_quotes() {
    assert_eq!(escape_text("a\\b\"c"), "a\\\\b\\\"c");
    assert_eq!(escape_text("\\\""), "\\\\\\\"");
    assert_eq!(escape_text(""), "");
    assert_eq!(escape_text("plain; text 'x'"), "plain; text 'x'");
}

#[test]
fn escaped_text_reads_back_like_a_shell() {
    for text in ["He said \"hi\"", "C:\\path\\", "\\\\\"\"", "end\\", "a\\nb"] {
        assert_eq!(unquote(&escape_text(text)), text);
    }
}
