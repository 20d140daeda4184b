//! The two command lines of a session: the one shown to the user, and the one
//! run for the preview, which may carry a width limit for the terminal.

use vstd::prelude::*;

use crate::fonts::Font;
use crate::text::{
    contains_text, decimal, has_suffix, is_substring, push_decimal, signed_decimal,
};

verus! {

/// How one character of the input text is written between double quotes.
pub open spec fn escape_char(c: char) -> Seq<char> {
    if c == '\\' {
        seq!['\\', '\\']
    } else if c == '"' {
        seq!['\\', '"']
    } else {
        seq![c]
    }
}

/// The input text with each backslash doubled and each double quote preceded
/// by a backslash (backslashes first, so that no inserted one is doubled).
pub open spec fn escape(s: Seq<char>) -> Seq<char>
    decreases s.len(),
{
    if s.len() == 0 {
        Seq::empty()
    } else {
        escape(s.drop_last()) + escape_char(s.last())
    }
}

/// The input text as one double-quoted shell word.
pub open spec fn quoted(s: Seq<char>) -> Seq<char> {
    seq!['"'] + escape(s) + seq!['"']
}

/// What a POSIX shell makes of the characters after an opening double quote,
/// when they close that quote at their very end and expand nothing: `None`
/// where the word ends early, runs on, or holds an expansion (`$`, backquote).
pub open spec fn shell_dq_rest(rest: Seq<char>) -> Option<Seq<char>>
    decreases rest.len(),
{
    if rest.len() == 0 {
        None
    } else if rest[0] == '"' {
        if rest.len() == 1 {
            Some(Seq::empty())
        } else {
            None
        }
    } else if rest[0] == '$' || rest[0] == '`' {
        None
    } else if rest[0] == '\\' {
        if rest.len() < 2 {
            None
        } else if rest[1] == '$' || rest[1] == '`' || rest[1] == '"' || rest[1] == '\\' {
            match shell_dq_rest(rest.skip(2)) {
                Some(t) => Some(seq![rest[1]] + t),
                None => None,
            }
        } else if rest[1] == '\n' {
            shell_dq_rest(rest.skip(2))
        } else {
            match shell_dq_rest(rest.skip(1)) {
                Some(t) => Some(seq!['\\'] + t),
                None => None,
            }
        }
    } else {
        match shell_dq_rest(rest.skip(1)) {
            Some(t) => Some(seq![rest[0]] + t),
            None => None,
        }
    }
}

/// The argument a POSIX shell reads from `w`, where `w` is exactly one
/// double-quoted word; `None` otherwise.
pub open spec fn shell_dq_word(w: Seq<char>) -> Option<Seq<char>> {
    if w.len() > 0 && w[0] == '"' {
        shell_dq_rest(w.skip(1))
    } else {
        None
    }
}

/// The flags text, after a space, when there is any.
pub open spec fn flags_part(flags: Seq<char>) -> Seq<char> {
    if flags.len() == 0 {
        Seq::empty()
    } else {
        seq![' '] + flags
    }
}

/// ` -f "<name>"`.
pub open spec fn font_part(name: Seq<char>) -> Seq<char> {
    seq![' ', '-', 'f', ' ', '"'] + name + seq!['"']
}

/// ` -d "<dir>"` for a font outside the renderer's own font directory.
pub open spec fn dir_fragment(dir: Seq<char>) -> Seq<char> {
    seq![' ', '-', 'd', ' ', '"'] + dir + seq!['"']
}

/// The directory flag, present only where the font's directory differs from
/// the renderer's own.
pub open spec fn dir_part(dir: Seq<char>, default_dir: Seq<char>) -> Seq<char> {
    if dir == default_dir {
        Seq::empty()
    } else {
        dir_fragment(dir)
    }
}

/// What both command lines start with.
pub open spec fn command_head(
    exe: Seq<char>,
    flags: Seq<char>,
    name: Seq<char>,
    dir: Seq<char>,
    default_dir: Seq<char>,
) -> Seq<char> {
    exe + flags_part(flags) + font_part(name) + dir_part(dir, default_dir)
}

/// What both command lines end with: a space and the quoted input text.
pub open spec fn input_part(text: Seq<char>) -> Seq<char> {
    seq![' '] + quoted(text)
}

/// `--width`.
pub open spec fn width_name() -> Seq<char> {
    seq!['-', '-', 'w', 'i', 'd', 't', 'h']
}

/// ` --width <n>`.
pub open spec fn width_fragment(n: int) -> Seq<char> {
    seq![' '] + width_name() + seq![' '] + signed_decimal(n)
}

/// The preview gets a width limit when the terminal width is known and the
/// user's flags set none.
pub open spec fn injects_width(flags: Seq<char>, width: nat) -> bool {
    width > 0 && !is_substring(width_name(), flags)
}

/// The width limit of the preview: two columns less than the terminal.
pub open spec fn width_part(flags: Seq<char>, width: nat) -> Seq<char> {
    if injects_width(flags, width) {
        width_fragment(width - 2)
    } else {
        Seq::empty()
    }
}

/// The command line shown to the user and offered for copying.
pub open spec fn display_cmdline(
    exe: Seq<char>,
    flags: Seq<char>,
    name: Seq<char>,
    dir: Seq<char>,
    default_dir: Seq<char>,
    text: Seq<char>,
) -> Seq<char> {
    command_head(exe, flags, name, dir, default_dir) + input_part(text)
}

/// The command line run to produce the preview.
pub open spec fn exec_cmdline(
    exe: Seq<char>,
    flags: Seq<char>,
    name: Seq<char>,
    dir: Seq<char>,
    default_dir: Seq<char>,
    text: Seq<char>,
    width: nat,
) -> Seq<char> {
    command_head(exe, flags, name, dir, default_dir) + width_part(flags, width) + input_part(
        text,
    )
}

proof fn lemma_escape_concat(a: Seq<char>, b: Seq<char>)
    ensures
        escape(a + b) == escape(a) + escape(b),
    decreases b.len(),
{
    if b.len() == 0 {
        assert(a + b =~= a);
        assert(escape(b) =~= Seq::<char>::empty());
        assert(escape(a) + escape(b) =~= escape(a));
    } else {
        assert((a + b).drop_last() =~= a + b.drop_last());
        lemma_escape_concat(a, b.drop_last());
        assert(escape(a + b) =~= escape(a) + escape(b));
    }
}

proof fn lemma_escape_front(s: Seq<char>)
    requires
        s.len() > 0,
    ensures
        escape(s) == escape_char(s[0]) + escape(s.skip(1)),
{
    assert(s =~= seq![s[0]] + s.skip(1));
    lemma_escape_concat(seq![s[0]], s.skip(1));
    assert(seq![s[0]].drop_last() =~= Seq::<char>::empty());
    assert(escape(Seq::<char>::empty()) =~= Seq::<char>::empty());
    assert(escape(seq![s[0]]) == escape(Seq::<char>::empty()) + escape_char(s[0]));
    assert(escape(seq![s[0]]) =~= escape_char(s[0]));
}

proof fn lemma_escaped_rest(s: Seq<char>)
    requires
        forall|i: int| 0 <= i < s.len() ==> s[i] != '$' && s[i] != '`',
    ensures
        shell_dq_rest(escape(s) + seq!['"']) == Some(s),
    decreases s.len(),
{
    let rest = escape(s) + seq!['"'];
    if s.len() == 0 {
        assert(rest =~= seq!['"']);
        assert(s =~= Seq::<char>::empty());
    } else {
        let c = s[0];
        let t = s.skip(1);
        lemma_escape_front(s);
        lemma_escaped_rest(t);
        let inner = escape(t) + seq!['"'];
        assert(rest =~= escape_char(c) + inner);
        assert(s =~= seq![c] + t);
        if c == '\\' || c == '"' {
            assert(rest.skip(2) =~= inner);
        } else {
            assert(rest.skip(1) =~= inner);
        }
    }
}

/// The quoted input text reads back, through a POSIX shell's double-quote
/// rules, as exactly the text, for every text without `$` or backquote (the
/// two characters that such a shell still expands between double quotes).
pub proof fn lemma_quoted_round_trip(s: Seq<char>)
    requires
        forall|i: int| 0 <= i < s.len() ==> s[i] != '$' && s[i] != '`',
    ensures
        shell_dq_word(quoted(s)) == Some(s),
{
    lemma_escaped_rest(s);
    assert(quoted(s).skip(1) =~= escape(s) + seq!['"']);
}

proof fn lemma_occurs_at(a: Seq<char>, t: Seq<char>, b: Seq<char>)
    ensures
        is_substring(t, a + t + b),
{
    assert((a + t + b).subrange(a.len() as int, (a.len() + t.len()) as int) =~= t);
}

/// With a terminal wider than two columns and flags that do not mention
/// `--width`, the preview command line carries ` --width <W - 2>`, right
/// before the input text; with flags that mention `--width`, no width is
/// added, whatever the terminal width: the preview line is the display line.
pub proof fn lemma_width_injection(
    exe: Seq<char>,
    flags: Seq<char>,
    name: Seq<char>,
    dir: Seq<char>,
    default_dir: Seq<char>,
    text: Seq<char>,
    width: nat,
)
    ensures
        width > 2 && !is_substring(width_name(), flags) ==> {
            let fragment = seq![' '] + width_name() + seq![' '] + decimal((width - 2) as nat);
            &&& exec_cmdline(exe, flags, name, dir, default_dir, text, width) == command_head(
                exe,
                flags,
                name,
                dir,
                default_dir,
            ) + fragment + input_part(text)
            &&& is_substring(fragment, exec_cmdline(exe, flags, name, dir, default_dir, text, width))
        },
        is_substring(width_name(), flags) ==> exec_cmdline(
            exe,
            flags,
            name,
            dir,
            default_dir,
            text,
            width,
        ) == display_cmdline(exe, flags, name, dir, default_dir, text),
{
    let head = command_head(exe, flags, name, dir, default_dir);
    if width > 2 && !is_substring(width_name(), flags) {
        let fragment = seq![' '] + width_name() + seq![' '] + decimal((width - 2) as nat);
        assert(width_fragment(width - 2) == fragment);
        lemma_occurs_at(head, fragment, input_part(text));
    }
    if is_substring(width_name(), flags) {
        assert(head + Seq::<char>::empty() =~= head);
    }
}

/// With the font in the renderer's own directory, neither command line gets
/// a directory flag; with the font in another directory, both get
/// ` -d "<dir>"`, right after the font flag.
pub proof fn lemma_dir_flag(
    exe: Seq<char>,
    flags: Seq<char>,
    name: Seq<char>,
    dir: Seq<char>,
    default_dir: Seq<char>,
    text: Seq<char>,
    width: nat,
)
    ensures
        dir == default_dir ==> {
            &&& display_cmdline(exe, flags, name, dir, default_dir, text) == exe + flags_part(flags)
                + font_part(name) + input_part(text)
            &&& exec_cmdline(exe, flags, name, dir, default_dir, text, width) == exe + flags_part(
                flags,
            ) + font_part(name) + width_part(flags, width) + input_part(text)
        },
        dir != default_dir ==> {
            &&& display_cmdline(exe, flags, name, dir, default_dir, text) == exe + flags_part(flags)
                + font_part(name) + dir_fragment(dir) + input_part(text)
            &&& exec_cmdline(exe, flags, name, dir, default_dir, text, width) == exe + flags_part(
                flags,
            ) + font_part(name) + dir_fragment(dir) + width_part(flags, width) + input_part(text)
            &&& is_substring(dir_fragment(dir), display_cmdline(exe, flags, name, dir, default_dir, text))
            &&& is_substring(dir_fragment(dir), exec_cmdline(exe, flags, name, dir, default_dir, text, width))
        },
{
    let front = exe + flags_part(flags) + font_part(name);
    if dir == default_dir {
        assert(front + Seq::<char>::empty() =~= front);
    } else {
        lemma_occurs_at(front, dir_fragment(dir), input_part(text));
        assert(front + dir_fragment(dir) + width_part(flags, width) + input_part(text) =~= front
            + dir_fragment(dir) + (width_part(flags, width) + input_part(text)));
        lemma_occurs_at(front, dir_fragment(dir), width_part(flags, width) + input_part(text));
    }
}

/// `t` does not occur across a character that it does not hold.
proof fn lemma_not_across(a: Seq<char>, c: char, b: Seq<char>, t: Seq<char>)
    requires
        t.len() > 0,
        !is_substring(t, a),
        !is_substring(t, b),
        forall|k: int| 0 <= k < t.len() ==> t[k] != c,
    ensures
        !is_substring(t, a + seq![c] + b),
{
    let s = a + seq![c] + b;
    if is_substring(t, s) {
        let i = choose|i: int|
            0 <= i && i + t.len() <= s.len() && #[trigger] s.subrange(i, i + t.len()) == t;
        if i + t.len() <= a.len() {
            assert(a.subrange(i, i + t.len()) =~= s.subrange(i, i + t.len()));
        } else if i > a.len() {
            let k = i - a.len() - 1;
            assert(b.subrange(k, k + t.len()) =~= s.subrange(i, i + t.len()));
        } else {
            assert(s.subrange(i, i + t.len())[a.len() - i] == c);
        }
    }
}

/// A character that escaping writes in front of, or doubles.
pub open spec fn is_escaped_char(c: char) -> bool {
    c == '\\' || c == '"'
}

proof fn lemma_escape_suffix(s: Seq<char>, u: Seq<char>)
    requires
        has_suffix(escape(s), u),
        forall|k: int| 0 <= k < u.len() ==> !is_escaped_char(#[trigger] u[k]),
    ensures
        has_suffix(s, u),
    decreases u.len(),
{
    if u.len() == 0 {
        assert(s.subrange(s.len() as int, s.len() as int) =~= u);
    } else {
        let e = escape(s);
        assert(e.subrange(e.len() - u.len(), e.len() as int)[u.len() - 1] == e.last());
        assert(!is_escaped_char(u[u.len() - 1]));
        if s.len() == 0 {
            assert(escape(s) =~= Seq::<char>::empty());
        } else {
            let c = s.last();
            let s1 = s.drop_last();
            if is_escaped_char(c) {
                assert(e.last() == c);
            } else {
                let e1 = escape(s1);
                assert(e =~= e1 + seq![c]);
                let u1 = u.drop_last();
                assert(e1.subrange(e1.len() - u1.len(), e1.len() as int) =~= e.subrange(
                    e.len() - u.len(),
                    e.len() - 1,
                ));
                assert(u1 =~= u.subrange(0, u.len() - 1));
                assert(e.subrange(e.len() - u.len(), e.len() - 1) =~= u.subrange(0, u.len() - 1));
                assert(has_suffix(e1, u1));
                lemma_escape_suffix(s1, u1);
                assert(s.subrange(s.len() - u.len(), s.len() as int) =~= s1.subrange(
                    s1.len() - u1.len(),
                    s1.len() as int,
                ).push(c));
                assert(u =~= u1.push(u.last()));
            }
        }
    }
}

proof fn lemma_escape_keeps_out(s: Seq<char>, t: Seq<char>)
    requires
        t.len() > 0,
        !is_substring(t, s),
        forall|k: int| 0 <= k < t.len() ==> !is_escaped_char(#[trigger] t[k]),
    ensures
        !is_substring(t, escape(s)),
    decreases s.len(),
{
    if s.len() > 0 {
        let s1 = s.drop_last();
        let c = s.last();
        if is_substring(t, s1) {
            let i = choose|i: int|
                0 <= i && i + t.len() <= s1.len() && #[trigger] s1.subrange(i, i + t.len()) == t;
            assert(s.subrange(i, i + t.len()) =~= s1.subrange(i, i + t.len()));
        }
        lemma_escape_keeps_out(s1, t);
        let e1 = escape(s1);
        let e = escape(s);
        assert(e == e1 + escape_char(c));
        if is_substring(t, e) {
            let i = choose|i: int|
                0 <= i && i + t.len() <= e.len() && #[trigger] e.subrange(i, i + t.len()) == t;
            if i + t.len() <= e1.len() {
                assert(e1.subrange(i, i + t.len()) =~= e.subrange(i, i + t.len()));
            } else if is_escaped_char(c) {
                let p = if i > e1.len() { i } else { e1.len() as int };
                assert(e.subrange(i, i + t.len())[p - i] == e[p]);
                assert(is_escaped_char(e[p]));
            } else {
                assert(e.len() == e1.len() + 1);
                assert(i + t.len() == e.len());
                lemma_escape_suffix(s, t);
                let j = s.len() - t.len();
                assert(s.subrange(j, j + t.len()) == t);
            }
        }
    } else {
        assert(escape(s) =~= Seq::<char>::empty());
    }
}

/// The display command line leaves out the terminal width: it is the
/// preview line of a terminal of unknown width, and it holds no `--width`
/// unless the user's flags do. (This is shown for a renderer path, font name,
/// input text and, where it is used, font directory that hold no `--width`
/// themselves.)
pub proof fn lemma_display_has_no_width(
    exe: Seq<char>,
    flags: Seq<char>,
    name: Seq<char>,
    dir: Seq<char>,
    default_dir: Seq<char>,
    text: Seq<char>,
)
    requires
        !is_substring(width_name(), exe),
        !is_substring(width_name(), name),
        !is_substring(width_name(), text),
        dir != default_dir ==> !is_substring(width_name(), dir),
    ensures
        display_cmdline(exe, flags, name, dir, default_dir, text) == exec_cmdline(
            exe,
            flags,
            name,
            dir,
            default_dir,
            text,
            0,
        ),
        !is_substring(width_name(), flags) ==> !is_substring(
            width_name(),
            display_cmdline(exe, flags, name, dir, default_dir, text),
        ),
{
    let w = width_name();
    let empty = Seq::<char>::empty();
    let head = command_head(exe, flags, name, dir, default_dir);
    assert(head + empty =~= head);
    assert forall|k: int| 0 <= k < w.len() implies w[k] != ' ' && w[k] != '"' && !is_escaped_char(
        #[trigger] w[k],
    ) by {}
    if !is_substring(w, flags) {
        let a1 = if flags.len() == 0 {
            exe
        } else {
            lemma_not_across(exe, ' ', flags, w);
            exe + seq![' '] + flags
        };
        assert(a1 =~= exe + flags_part(flags));
        lemma_not_across(a1, ' ', seq!['-', 'f'], w);
        let a2 = a1 + seq![' '] + seq!['-', 'f'];
        lemma_not_across(a2, ' ', empty, w);
        let a3 = a2 + seq![' '] + empty;
        lemma_not_across(a3, '"', name, w);
        let a4 = a3 + seq!['"'] + name;
        lemma_not_across(a4, '"', empty, w);
        let a5 = a4 + seq!['"'] + empty;
        assert(a5 =~= a1 + font_part(name));
        let a9 = if dir == default_dir {
            a5
        } else {
            lemma_not_across(a5, ' ', seq!['-', 'd'], w);
            let a6 = a5 + seq![' '] + seq!['-', 'd'];
            lemma_not_across(a6, ' ', empty, w);
            let a7 = a6 + seq![' '] + empty;
            lemma_not_across(a7, '"', dir, w);
            let a8 = a7 + seq!['"'] + dir;
            lemma_not_across(a8, '"', empty, w);
            assert(a8 + seq!['"'] + empty =~= a5 + dir_fragment(dir));
            a8 + seq!['"'] + empty
        };
        assert(a9 =~= head);
        lemma_escape_keeps_out(text, w);
        lemma_not_across(a9, ' ', empty, w);
        let a10 = a9 + seq![' '] + empty;
        lemma_not_across(a10, '"', escape(text), w);
        let a11 = a10 + seq!['"'] + escape(text);
        lemma_not_across(a11, '"', empty, w);
        assert(a11 + seq!['"'] + empty =~= display_cmdline(exe, flags, name, dir, default_dir, text));
    }
}

/// The input text with backslashes and double quotes escaped for use
/// between double quotes.
pub fn escape_text(text: &str) -> (r: String)
    ensures
        r@ == escape(text@),
{
    let len = text.unicode_len();
    let mut out = String::new();
    let mut i: usize = 0;
    assert(text@.subrange(0, 0) =~= Seq::<char>::empty());
    while i < len
        invariant
            len == text@.len(),
            i <= len,
            out@ == escape(text@.subrange(0, i as int)),
        decreases len - i,
    {
        let c = text.get_char(i);
        if c == '\\' {
            proof { reveal_strlit("\\\\"); }
            assert("\\\\"@ =~= escape_char(c));
            out.append("\\\\");
        } else if c == '"' {
            proof { reveal_strlit("\\\""); }
            assert("\\\""@ =~= escape_char(c));
            out.append("\\\"");
        } else {
            out.append(text.substring_char(i, i + 1));
            assert(text@.subrange(i as int, i + 1) =~= escape_char(c));
        }
        assert(text@.subrange(0, i + 1).drop_last() =~= text@.subrange(0, i as int));
        i += 1;
    }
    assert(text@.subrange(0, len as int) =~= text@);
    out
}

/// Appends ` --width <n>` for `n == width - 2`.
fn push_width_flag(out: &mut String, width: usize)
    requires
        width > 0,
    ensures
        final(out)@ == old(out)@ + width_fragment(width - 2),
{
    proof {
        reveal_strlit(" --width ");
        reveal_strlit("-1");
    }
    assert(" --width "@ =~= seq![' '] + width_name() + seq![' ']);
    out.append(" --width ");
    if width >= 2 {
        push_decimal(out, width - 2);
    } else {
        assert(decimal(1) =~= seq!['1']);
        assert("-1"@ =~= signed_decimal(-1));
        out.append("-1");
    }
    assert(final(out)@ =~= old(out)@ + width_fragment(width - 2));
}

/// The display command line and the preview command line for the renderer
/// `exe`, the user's flags, the selected font, the renderer's own font
/// directory, the input text and the terminal width (`0` where unknown).
pub fn command_lines(
    exe: &str,
    flags: &str,
    font: &Font,
    default_dir: &str,
    text: &str,
    width: usize,
) -> (r: (String, String))
    ensures
        r.0@ == display_cmdline(exe@, flags@, font.name@, font.dir@, default_dir@, text@),
        r.1@ == exec_cmdline(exe@, flags@, font.name@, font.dir@, default_dir@, text@, width as nat),
{
    proof {
        reveal_strlit(" ");
        reveal_strlit(" -f \"");
        reveal_strlit("\"");
        reveal_strlit(" -d \"");
        reveal_strlit(" \"");
        reveal_strlit("--width");
    }
    let mut head = String::from_str(exe);
    if flags.unicode_len() > 0 {
        head.append(" ");
        head.append(flags);
    }
    assert(head@ =~= exe@ + flags_part(flags@));
    head.append(" -f \"");
    head.append(font.name.as_str());
    head.append("\"");
    assert(head@ =~= exe@ + flags_part(flags@) + font_part(font.name@));
    let default_owned = String::from_str(default_dir);
    if !(font.dir == default_owned) {
        head.append(" -d \"");
        head.append(font.dir.as_str());
        head.append("\"");
    }
    assert(head@ =~= command_head(exe@, flags@, font.name@, font.dir@, default_dir@));
    let mut internal = head.clone();
    assert("--width"@ =~= width_name());
    if width > 0 && !contains_text(flags, "--width") {
        push_width_flag(&mut internal, width);
    }
    assert(internal@ =~= command_head(exe@, flags@, font.name@, font.dir@, default_dir@)
        + width_part(flags@, width as nat));
    let mut tail = String::from_str(" \"");
    let escaped = escape_text(text);
    tail.append(escaped.as_str());
    tail.append("\"");
    assert(tail@ =~= input_part(text@));
    head.append(tail.as_str());
    internal.append(tail.as_str());
    (head, internal)
}

} // verus!
