//! The arguments of the program, and how they are read.

use crate::text::{chars_of, same_text, views};
use vstd::prelude::*;

verus! {

/// A file that is part of the program.
#[derive(Clone, Copy)]
pub struct ResourceFile {
    pub name: &'static str,
    pub content: &'static str,
}

/// A file of commands to run at the start.
pub struct ArgsConfig {
    pub path: String,
    pub suppress_file_not_found: bool,
}

/// What the arguments of the program ask for.
pub struct Args {
    pub version: bool,
    pub session: Option<String>,
    pub print_session: bool,
    pub as_focused_client: bool,
    pub quit: bool,
    pub server: bool,
    pub configs: Vec<ArgsConfig>,
    pub files: Vec<String>,
}

/// Why the arguments could not be read, or what they ask for in place of
/// running the editor.
pub enum ArgsError {
    /// Help is asked for.
    Help,
    /// The version is asked for.
    Version,
    /// No name follows the option for the session.
    ExpectedSession,
    /// The name of the session holds something besides letters and digits.
    InvalidSession(String),
    /// No path follows the option for a file of commands.
    ExpectedConfigPath,
    /// An option that the program does not know.
    InvalidOption(String),
}

pub struct ArgsView {
    pub version: bool,
    pub session: Option<Seq<char>>,
    pub print_session: bool,
    pub as_focused_client: bool,
    pub quit: bool,
    pub server: bool,
    pub configs: Seq<(Seq<char>, bool)>,
    pub files: Seq<Seq<char>>,
}

pub enum ArgsErrorView {
    Help,
    Version,
    ExpectedSession,
    InvalidSession(Seq<char>),
    ExpectedConfigPath,
    InvalidOption(Seq<char>),
}

impl View for ArgsConfig {
    type V = (Seq<char>, bool);

    open spec fn view(&self) -> (Seq<char>, bool) {
        (self.path@, self.suppress_file_not_found)
    }
}

/// The views of a list of files of commands.
pub open spec fn config_views(configs: Seq<ArgsConfig>) -> Seq<(Seq<char>, bool)> {
    Seq::new(configs.len(), |i: int| configs[i]@)
}

impl View for Args {
    type V = ArgsView;

    open spec fn view(&self) -> ArgsView {
        ArgsView {
            version: self.version,
            session: match self.session {
                Some(name) => Some(name@),
                None => None,
            },
            print_session: self.print_session,
            as_focused_client: self.as_focused_client,
            quit: self.quit,
            server: self.server,
            configs: config_views(self.configs@),
            files: views(self.files@),
        }
    }
}

impl View for ArgsError {
    type V = ArgsErrorView;

    open spec fn view(&self) -> ArgsErrorView {
        match self {
            ArgsError::Help => ArgsErrorView::Help,
            ArgsError::Version => ArgsErrorView::Version,
            ArgsError::ExpectedSession => ArgsErrorView::ExpectedSession,
            ArgsError::InvalidSession(name) => ArgsErrorView::InvalidSession(name@),
            ArgsError::ExpectedConfigPath => ArgsErrorView::ExpectedConfigPath,
            ArgsError::InvalidOption(option) => ArgsErrorView::InvalidOption(option@),
        }
    }
}

/// Whether a character is a letter of the alphabet or a digit.
pub open spec fn is_alphanumeric(c: char) -> bool {
    ('a' <= c <= 'z') || ('A' <= c <= 'Z') || ('0' <= c <= '9')
}

/// Whether a text holds letters and digits only.
pub open spec fn is_session_name(name: Seq<char>) -> bool {
    forall|i: int| 0 <= i < name.len() ==> is_alphanumeric(#[trigger] name[i])
}

/// Whether an argument is the option for a file of commands.
pub open spec fn is_config_option(arg: Seq<char>) -> bool {
    arg == "-c"@ || arg == "-c!"@ || arg == "--config"@ || arg == "--config!"@
}

/// What no arguments ask for.
pub open spec fn no_args() -> ArgsView {
    ArgsView {
        version: false,
        session: None,
        print_session: false,
        as_focused_client: false,
        quit: false,
        server: false,
        configs: Seq::empty(),
        files: Seq::empty(),
    }
}

/// What the arguments from the place `from` on ask for, on top of `so_far`.
/// Behind `--` every argument is a file.
pub open spec fn parsed_args(
    args: Seq<Seq<char>>,
    from: int,
    so_far: ArgsView,
    only_files: bool,
) -> Result<ArgsView, ArgsErrorView>
    decreases args.len() - from,
{
    if from < 0 || from >= args.len() {
        Ok(so_far)
    } else {
        let arg = args[from];
        if only_files {
            parsed_args(args, from + 1, ArgsView { files: so_far.files.push(arg), ..so_far }, true)
        } else if arg == "-h"@ || arg == "--help"@ {
            Err(ArgsErrorView::Help)
        } else if arg == "-v"@ || arg == "--version"@ {
            Err(ArgsErrorView::Version)
        } else if arg == "-s"@ || arg == "--session"@ {
            if from + 1 >= args.len() {
                Err(ArgsErrorView::ExpectedSession)
            } else if !is_session_name(args[from + 1]) {
                Err(ArgsErrorView::InvalidSession(args[from + 1]))
            } else {
                parsed_args(
                    args,
                    from + 2,
                    ArgsView { session: Some(args[from + 1]), ..so_far },
                    false,
                )
            }
        } else if arg == "--print-session"@ {
            parsed_args(args, from + 1, ArgsView { print_session: true, ..so_far }, false)
        } else if arg == "--as-focused-client"@ {
            parsed_args(args, from + 1, ArgsView { as_focused_client: true, ..so_far }, false)
        } else if arg == "--quit"@ {
            parsed_args(args, from + 1, ArgsView { quit: true, ..so_far }, false)
        } else if arg == "--server"@ {
            parsed_args(args, from + 1, ArgsView { server: true, ..so_far }, false)
        } else if is_config_option(arg) {
            if from + 1 >= args.len() {
                Err(ArgsErrorView::ExpectedConfigPath)
            } else {
                parsed_args(
                    args,
                    from + 2,
                    ArgsView {
                        configs: so_far.configs.push((args[from + 1], arg.last() == '!')),
                        ..so_far
                    },
                    false,
                )
            }
        } else if arg == "--"@ {
            parsed_args(args, from + 1, so_far, true)
        } else if arg.len() > 0 && arg[0] == '-' {
            Err(ArgsErrorView::InvalidOption(arg))
        } else {
            parsed_args(args, from + 1, ArgsView { files: so_far.files.push(arg), ..so_far }, false)
        }
    }
}

fn check_session_name(name: &str) -> (r: bool)
    ensures
        r == is_session_name(name@),
{
    let chars = chars_of(name);
    let mut i: usize = 0;
    while i < chars.len()
        invariant
            0 <= i <= chars.len(),
            chars@ == name@,
            forall|k: int| 0 <= k < i ==> is_alphanumeric(#[trigger] name@[k]),
        decreases chars.len() - i,
    {
        let c = chars[i];
        if !(('a' <= c && c <= 'z') || ('A' <= c && c <= 'Z') || ('0' <= c && c <= '9')) {
            return false;
        }
        i = i + 1;
    }
    true
}

impl Args {
    /// What no arguments ask for.
    pub fn new() -> (r: Self)
        ensures
            r@ == no_args(),
    {
        let r = Args {
            version: false,
            session: None,
            print_session: false,
            as_focused_client: false,
            quit: false,
            server: false,
            configs: Vec::new(),
            files: Vec::new(),
        };
        assert(r@.configs =~= Seq::<(Seq<char>, bool)>::empty());
        assert(r@.files =~= Seq::<Seq<char>>::empty());
        r
    }

    /// Reads the arguments of the program, without its name.
    #[verifier::loop_isolation(false)]
    pub fn parse(args: &Vec<String>) -> (r: Result<Self, ArgsError>)
        ensures
            match parsed_args(views(args@), 0, no_args(), false) {
                Ok(parsed) => r is Ok && r->Ok_0@ == parsed,
                Err(error) => r is Err && r->Err_0@ == error,
            },
    {
        let ghost all = views(args@);
        let ghost goal = parsed_args(all, 0, no_args(), false);
        let mut parsed = Args::new();
        let mut only_files = false;
        let mut i: usize = 0;
        while i < args.len()
            invariant
                0 <= i <= args.len(),
                all == views(args@),
                goal == parsed_args(all, i as int, parsed@, only_files),
            decreases args.len() - i,
        {
            let arg = args[i].as_str();
            assert(all[i as int] == arg@);
            let ghost before = parsed@;
            if only_files {
                parsed.files.push(String::from_str(arg));
                assert(parsed@.files =~= before.files.push(arg@));
                i = i + 1;
            } else if same_text(arg, "-h") || same_text(arg, "--help") {
                return Err(ArgsError::Help);
            } else if same_text(arg, "-v") || same_text(arg, "--version") {
                return Err(ArgsError::Version);
            } else if same_text(arg, "-s") || same_text(arg, "--session") {
                if i + 1 >= args.len() {
                    return Err(ArgsError::ExpectedSession);
                }
                let name = args[i + 1].as_str();
                assert(all[i + 1] == name@);
                if !check_session_name(name) {
                    return Err(ArgsError::InvalidSession(String::from_str(name)));
                }
                parsed.session = Some(String::from_str(name));
                i = i + 2;
            } else if same_text(arg, "--print-session") {
                parsed.print_session = true;
                i = i + 1;
            } else if same_text(arg, "--as-focused-client") {
                parsed.as_focused_client = true;
                i = i + 1;
            } else if same_text(arg, "--quit") {
                parsed.quit = true;
                i = i + 1;
            } else if same_text(arg, "--server") {
                parsed.server = true;
                i = i + 1;
            } else if same_text(arg, "-c") || same_text(arg, "-c!") || same_text(arg, "--config")
                || same_text(arg, "--config!") {
                if i + 1 >= args.len() {
                    return Err(ArgsError::ExpectedConfigPath);
                }
                proof {
                    reveal_strlit("-c");
                    reveal_strlit("-c!");
                    reveal_strlit("--config");
                    reveal_strlit("--config!");
                }
                let length = arg.unicode_len();
                let suppress = length > 0 && arg.get_char(length - 1) == '!';
                let path = args[i + 1].as_str();
                assert(all[i + 1] == path@);
                let config = ArgsConfig {
                    path: String::from_str(path),
                    suppress_file_not_found: suppress,
                };
                parsed.configs.push(config);
                assert(parsed@.configs =~= before.configs.push((path@, arg@.last() == '!')));
                i = i + 2;
            } else if same_text(arg, "--") {
                only_files = true;
                i = i + 1;
            } else if arg.unicode_len() > 0 && arg.get_char(0) == '-' {
                return Err(ArgsError::InvalidOption(String::from_str(arg)));
            } else {
                parsed.files.push(String::from_str(arg));
                assert(parsed@.files =~= before.files.push(arg@));
                i = i + 1;
            }
        }
        Ok(parsed)
    }
}

impl Default for Args {
    fn default() -> (r: Self)
        ensures
            r@ == no_args(),
    {
        Args::new()
    }
}

} // verus!
