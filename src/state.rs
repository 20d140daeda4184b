//! The session: the renderer, the catalog, what the user typed, and the
//! command lines and outputs derived from them on each tick.

use vstd::prelude::*;

use crate::command::{command_lines, display_cmdline, exec_cmdline};
use crate::fonts::{
    gather_fonts, gathered_fonts, sort_catalog, sorted_by_name, views, with_key, Font,
};
use crate::opts::Opts;
use crate::text::{trim_end, trim_end_text};

verus! {

/// Why a session cannot start.
#[derive(Debug, PartialEq, Eq, Structural)]
pub enum StartupError {
    /// The renderer failed its probe.
    NotAToilet,
    /// The renderer could not be asked for its font directory.
    NoFontDir,
    /// No font was found in any directory.
    NoFonts,
}

/// `hello`.
pub open spec fn hello() -> Seq<char> {
    seq!['h', 'e', 'l', 'l', 'o']
}

/// The renderer printed `hello`, and nothing else but trailing white space,
/// when asked to render `hello` in plain text.
pub open spec fn probe_passes(probe_stdout: Option<&str>) -> bool {
    match probe_stdout {
        Some(out) => trim_end(out@) == hello(),
        None => false,
    }
}

/// Whether the renderer passed its probe: asked to render `hello` in plain
/// text, it printed `hello` and nothing else but trailing white space.
/// `probe_stdout` is what it printed, or `None` where it could not be run.
pub fn verify_toilet_exe(probe_stdout: Option<&str>) -> (r: bool)
    ensures
        r == probe_passes(probe_stdout),
{
    match probe_stdout {
        Some(out) => {
            let output_text = trim_end_text(out);
            proof {
                reveal_strlit("hello");
            }
            assert("hello"@ =~= hello());
            let expected = String::from_str("hello");
            output_text == expected
        },
        None => false,
    }
}

/// The renderer's own font directory, from what it printed when asked for
/// it: that output without trailing white space.
pub fn default_font_dir(stdout: &str) -> (r: String)
    ensures
        r@ == trim_end(stdout@),
{
    trim_end_text(stdout)
}

/// The font after `i` in a catalog of `n`, wrapping to the first.
pub open spec fn next_index(i: int, n: int) -> int {
    (i + 1) % n
}

/// The font before `i` in a catalog of `n`, wrapping to the last.
pub open spec fn prev_index(i: int, n: int) -> int {
    (i + n - 1) % n
}

/// Moving to the next font and then to the previous one, or the other way
/// round, comes back to the font one started from, in every catalog that
/// holds a font.
pub proof fn lemma_next_prev_inverse(i: int, n: int)
    requires
        n >= 1,
        0 <= i < n,
    ensures
        prev_index(next_index(i, n), n) == i,
        next_index(prev_index(i, n), n) == i,
        0 <= next_index(i, n) < n,
        0 <= prev_index(i, n) < n,
{
    if i + 1 == n {
        assert(next_index(i, n) == 0) by (nonlinear_arith)
            requires
                i + 1 == n,
                n >= 1,
        ;
    } else {
        assert(next_index(i, n) == i + 1) by (nonlinear_arith)
            requires
                i + 1 < n,
                0 <= i,
        ;
    }
    if i == 0 {
        assert(prev_index(i, n) == n - 1) by (nonlinear_arith)
            requires
                i == 0,
                n >= 1,
        ;
    } else {
        assert(prev_index(i, n) == i - 1) by (nonlinear_arith)
            requires
                0 < i < n,
        ;
    }
    assert(prev_index(i + 1, n) == i) by (nonlinear_arith)
        requires
            0 <= i < n,
    ;
    assert(prev_index(0, n) == n - 1) by (nonlinear_arith)
        requires
            n >= 1,
    ;
    if i > 0 {
        assert(next_index(i - 1, n) == i) by (nonlinear_arith)
            requires
                0 < i < n,
        ;
    }
    assert(next_index(n - 1, n) == 0) by (nonlinear_arith)
        requires
            n >= 1,
    ;
}

/// A session of the front-end.
#[derive(Debug)]
pub struct State {
    /// Path of the renderer.
    pub toilet_exe: String,
    /// The command line the user asked for.
    pub toilet_cmdline: String,
    /// What the renderer printed for `toilet_cmdline`: for copying.
    pub toilet_cmdline_output: String,
    /// What the renderer printed for the preview command line: for display.
    pub output: String,
    /// The text to render.
    pub input: String,
    /// The flags for the renderer, as typed.
    pub flags: String,
    /// Width of the terminal, `0` while unknown.
    pub width: usize,
    /// The renderer's own font directory.
    pub default_font_dir: String,
    /// The catalog: every known font, by name.
    pub fonts: Vec<Font>,
    /// Which font of the catalog is selected.
    pub font_index: usize,
}

impl State {
    /// The catalog holds a font and the selection lies within it.
    pub open spec fn wf(&self) -> bool {
        0 <= self.font_index < self.fonts@.len()
    }

    /// A fresh session for the renderer of `opts` with its own font directory
    /// `default_dir`, over the fonts `found`: the catalog holds them sorted by
    /// lower-case name (equal names in the order found), the first is
    /// selected, and the texts and width are empty.
    pub open spec fn started(self, opts: &Opts, default_dir: Seq<char>, found: Seq<Font>) -> bool {
        &&& self.wf()
        &&& self.toilet_exe@ == opts.toilet_exe@
        &&& self.default_font_dir@ == default_dir
        &&& self.fonts@.to_multiset() == found.to_multiset()
        &&& sorted_by_name(self.fonts@)
        &&& forall|k: Seq<char>| #[trigger] with_key(self.fonts@, k) == with_key(found, k)
        &&& self.font_index == 0
        &&& self.width == 0
        &&& self.input@ == Seq::<char>::empty()
        &&& self.flags@ == Seq::<char>::empty()
        &&& self.toilet_cmdline@ == Seq::<char>::empty()
        &&& self.toilet_cmdline_output@ == Seq::<char>::empty()
        &&& self.output@ == Seq::<char>::empty()
    }

    /// Starts a session from what the renderer of `opts` printed when probed
    /// (`None`: it could not be run), what it printed when asked for its own
    /// font directory, and the listings of the font directories: `listings[0]`
    /// for its own, `listings[k + 1]` for `opts.font_dirs[k]`. A renderer that
    /// fails the probe, an unknown font directory, and a catalog without fonts
    /// each stop the start.
    pub fn start(
        opts: &Opts,
        probe_stdout: Option<&str>,
        dir_stdout: Option<&str>,
        listings: &Vec<Option<Vec<String>>>,
    ) -> (r: Result<State, StartupError>)
        ensures
            !probe_passes(probe_stdout) ==> r == Err::<State, StartupError>(
                StartupError::NotAToilet,
            ),
            probe_passes(probe_stdout) && dir_stdout is None ==> r == Err::<State, StartupError>(
                StartupError::NoFontDir,
            ),
            probe_passes(probe_stdout) && dir_stdout is Some ==> {
                let default_dir = trim_end(dir_stdout->0@);
                let fonts = gathered_fonts(
                    default_dir,
                    opts.font_dirs@,
                    listings@,
                    opts.font_dirs@.len(),
                );
                &&& fonts.len() == 0 <==> r is Err
                &&& r is Err ==> r == Err::<State, StartupError>(StartupError::NoFonts)
                &&& r matches Ok(st) ==> exists|found: Seq<Font>|
                    views(found) == fonts && #[trigger] st.started(opts, default_dir, found)
            },
    {
        if !verify_toilet_exe(probe_stdout) {
            return Err(StartupError::NotAToilet);
        }
        let dir_out = match dir_stdout {
            Some(out) => out,
            None => {
                return Err(StartupError::NoFontDir);
            },
        };
        let default_dir = default_font_dir(dir_out);
        let found = gather_fonts(default_dir.as_str(), &opts.font_dirs, listings);
        let r = State::new(opts, default_dir, &found);
        proof {
            if r is Ok {
                let st = r->Ok_0;
                assert(views(found@) == gathered_fonts(
                    trim_end(dir_out@),
                    opts.font_dirs@,
                    listings@,
                    opts.font_dirs@.len(),
                ));
                assert(st.started(opts, trim_end(dir_out@), found@));
            }
        }
        r
    }

    /// A session for the renderer of `opts`, whose own font directory is
    /// `default_font_dir`, over the fonts `found` in all font directories.
    /// With no font at all there is no session.
    pub fn new(opts: &Opts, default_font_dir: String, found: &Vec<Font>) -> (r: Result<
        State,
        StartupError,
    >)
        ensures
            found@.len() == 0 <==> r is Err,
            r is Err ==> r == Err::<State, StartupError>(StartupError::NoFonts),
            r matches Ok(st) ==> st.started(opts, default_font_dir@, found@),
    {
        if found.len() == 0 {
            return Err(StartupError::NoFonts);
        }
        let fonts = sort_catalog(found);
        proof {
            broadcast use vstd::seq_lib::group_to_multiset_ensures;

            assert(fonts@.to_multiset().len() == found@.to_multiset().len());
        }
        Ok(
            State {
                toilet_exe: opts.toilet_exe.clone(),
                toilet_cmdline: String::new(),
                toilet_cmdline_output: String::new(),
                output: String::new(),
                input: String::new(),
                flags: String::new(),
                width: 0,
                default_font_dir,
                fonts,
                font_index: 0,
            },
        )
    }

    /// The selected font.
    pub fn font(&self) -> (r: &Font)
        requires
            self.wf(),
        ensures
            *r == self.fonts@[self.font_index as int],
    {
        &self.fonts[self.font_index]
    }

    /// Selects the next font of the catalog, after the last the first, and
    /// returns it.
    pub fn next_font(&mut self) -> (r: &Font)
        requires
            old(self).wf(),
        ensures
            final(self).wf(),
            final(self).font_index == next_index(
                old(self).font_index as int,
                old(self).fonts@.len() as int,
            ),
            *final(self) == (State { font_index: final(self).font_index, ..*old(self) }),
            *r == final(self).fonts@[final(self).font_index as int],
    {
        proof {
            lemma_next_prev_inverse(self.font_index as int, self.fonts@.len() as int);
        }
        let len = self.fonts.len();
        self.font_index = (self.font_index + 1) % len;
        self.font()
    }

    /// Selects the previous font of the catalog, before the first the last,
    /// and returns it.
    pub fn prev_font(&mut self) -> (r: &Font)
        requires
            old(self).wf(),
        ensures
            final(self).wf(),
            final(self).font_index == prev_index(
                old(self).font_index as int,
                old(self).fonts@.len() as int,
            ),
            *final(self) == (State { font_index: final(self).font_index, ..*old(self) }),
            *r == final(self).fonts@[final(self).font_index as int],
    {
        proof {
            lemma_next_prev_inverse(self.font_index as int, self.fonts@.len() as int);
        }
        let len = self.fonts.len();
        let i = self.font_index;
        assert(i > 0 ==> prev_index(i as int, len as int) == i - 1) by (nonlinear_arith)
            requires
                i < len,
        ;
        assert(i == 0 ==> prev_index(i as int, len as int) == len - 1) by (nonlinear_arith)
            requires
                len >= 1,
        ;
        if self.font_index == 0 {
            self.font_index = len - 1;
        } else {
            self.font_index = self.font_index - 1;
        }
        self.font()
    }

    /// The display command line of the session as it stands.
    pub open spec fn display_line(&self) -> Seq<char> {
        let f = self.fonts@[self.font_index as int];
        display_cmdline(
            self.toilet_exe@,
            self.flags@,
            f.name@,
            f.dir@,
            self.default_font_dir@,
            self.input@,
        )
    }

    /// The preview command line of the session as it stands.
    pub open spec fn preview_line(&self) -> Seq<char> {
        let f = self.fonts@[self.font_index as int];
        exec_cmdline(
            self.toilet_exe@,
            self.flags@,
            f.name@,
            f.dir@,
            self.default_font_dir@,
            self.input@,
            self.width as nat,
        )
    }

    /// Assembles the command lines of this tick: stores the display command
    /// line in `toilet_cmdline` and returns the preview command line, the one
    /// to run for the preview.
    pub fn exec(&mut self) -> (internal: String)
        requires
            old(self).wf(),
        ensures
            final(self).toilet_cmdline@ == old(self).display_line(),
            *final(self) == (State { toilet_cmdline: final(self).toilet_cmdline, ..*old(self) }),
            internal@ == old(self).preview_line(),
    {
        let font = &self.fonts[self.font_index];
        let (toilet_cmdline, internal_cmdline) = command_lines(
            self.toilet_exe.as_str(),
            self.flags.as_str(),
            font,
            self.default_font_dir.as_str(),
            self.input.as_str(),
            self.width,
        );
        self.toilet_cmdline = toilet_cmdline;
        internal_cmdline
    }

    /// Records what the two command lines printed: the preview output without
    /// its trailing white space, the output for copying as it is. A command
    /// that could not be run (`None`) leaves the earlier output in place.
    pub fn record_outputs(&mut self, preview: Option<&str>, copyable: Option<&str>)
        ensures
            match preview {
                Some(p) => final(self).output@ == trim_end(p@),
                None => final(self).output == old(self).output,
            },
            match copyable {
                Some(c) => final(self).toilet_cmdline_output@ == c@,
                None => final(self).toilet_cmdline_output == old(self).toilet_cmdline_output,
            },
            *final(self) == (State {
                output: final(self).output,
                toilet_cmdline_output: final(self).toilet_cmdline_output,
                ..*old(self)
            }),
    {
        if let Some(p) = preview {
            self.output = trim_end_text(p);
        }
        if let Some(c) = copyable {
            self.toilet_cmdline_output = String::from_str(c);
        }
    }
}

} // verus!
