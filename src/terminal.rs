//! What a session asks of the pseudo-terminal layer: the window geometry it
//! applies, and the shell command it starts.

use vstd::prelude::*;

verus! {

/// portable_pty's terminal geometry, read as its four public `u16` fields
/// (rows, columns and the pixel sizes of a cell).
#[verifier::external_type_specification]
pub struct ExPtySize(portable_pty::PtySize);

/// Columns of a newly opened terminal.
pub const INITIAL_COLS: u16 = 80;

/// Rows of a newly opened terminal.
pub const INITIAL_ROWS: u16 = 24;

/// A geometry of `cols` by `rows` character cells; pixel sizes are not
/// tracked and stay zero.
pub fn cell_size(cols: u16, rows: u16) -> (r: portable_pty::PtySize)
    ensures
        r.cols == cols,
        r.rows == rows,
        r.pixel_width == 0,
        r.pixel_height == 0,
{
    portable_pty::PtySize { rows, cols, pixel_width: 0, pixel_height: 0 }
}

/// The geometry a session's terminal is opened with.
pub fn initial_size() -> (r: portable_pty::PtySize)
    ensures
        r.cols == INITIAL_COLS,
        r.rows == INITIAL_ROWS,
        r.pixel_width == 0,
        r.pixel_height == 0,
{
    cell_size(INITIAL_COLS, INITIAL_ROWS)
}

/// Shell started where the environment names none, on POSIX-like systems.
pub const POSIX_SHELL: &'static str = "/bin/bash";

/// Command interpreter started where the environment names none, on Windows.
pub const WINDOWS_SHELL: &'static str = "cmd.exe";

/// Terminal type forced on every session, so that programs render for it.
pub const TERM_VALUE: &'static str = "xterm-256color";

/// The shell a session starts, with what it is started with.
#[derive(Debug)]
pub struct ShellCommand {
    pub program: String,
    pub args: Vec<String>,
    pub cwd: Option<String>,
    /// Variables set for the shell, applied in order; a later one wins.
    pub env: Vec<(String, String)>,
}

/// The variables as pairs of texts.
pub open spec fn env_view(env: Seq<(String, String)>) -> Seq<(Seq<char>, Seq<char>)> {
    env.map_values(|p: (String, String)| (p.0@, p.1@))
}

/// The program started: the environment's shell if it names one, else the
/// platform's default.
pub open spec fn shell_program(declared: Option<Seq<char>>, on_windows: bool) -> Seq<char> {
    match declared {
        Some(s) => s,
        None => if on_windows {
            WINDOWS_SHELL@
        } else {
            POSIX_SHELL@
        },
    }
}

/// The command for a new session: the shell named by `declared_shell` (the
/// environment's choice, if any) as an interactive login shell, in `cwd` if
/// given, with the caller's variables followed by the forced terminal type.
pub fn shell_command(
    declared_shell: Option<String>,
    on_windows: bool,
    cwd: Option<String>,
    env: Option<Vec<(String, String)>>,
) -> (r: ShellCommand)
    ensures
        r.program@ == shell_program(
            match declared_shell {
                Some(s) => Some(s@),
                None => None,
            },
            on_windows,
        ),
        r.args@.len() == 2,
        r.args@[0]@ == "-l"@,
        r.args@[1]@ == "-i"@,
        r.cwd == cwd,
        env_view(r.env@) == match env {
            Some(v) => env_view(v@),
            None => Seq::<(Seq<char>, Seq<char>)>::empty(),
        } + seq![("TERM"@, TERM_VALUE@)],
{
    let program = match declared_shell {
        Some(s) => s,
        None => if on_windows {
            String::from_str(WINDOWS_SHELL)
        } else {
            String::from_str(POSIX_SHELL)
        },
    };
    let mut args: Vec<String> = Vec::new();
    args.push(String::from_str("-l"));
    args.push(String::from_str("-i"));
    let mut vars: Vec<(String, String)> = match env {
        Some(v) => v,
        None => Vec::new(),
    };
    let ghost given = vars@;
    vars.push((String::from_str("TERM"), String::from_str(TERM_VALUE)));
    proof {
        assert(env_view(vars@) =~= env_view(given) + seq![("TERM"@, TERM_VALUE@)]);
    }
    ShellCommand { program, args, cwd, env: vars }
}

} // verus!
