//! The command line.

use crate::text::str_eq;
use vstd::prelude::*;

verus! {

/// How the program was asked to run.
#[derive(Clone, Copy, Debug, PartialEq, Eq, Structural)]
pub enum LaunchMode {
    Auto,
    Gui,
    Headless,
    Help,
    Version,
}

impl Default for LaunchMode {
    fn default() -> (r: Self)
        ensures
            r == LaunchMode::Auto,
    {
        LaunchMode::Auto
    }
}

/// The texts of the arguments.
pub open spec fn arg_texts(args: Seq<String>) -> Seq<Seq<char>> {
    args.map_values(|s: String| s@)
}

/// What the arguments behind a mode ask for. Help and version end the reading; the
/// window can be asked for or refused, any number of times, but not both.
pub open spec fn parsed(args: Seq<Seq<char>>, mode: LaunchMode) -> Result<LaunchMode, Seq<char>>
    decreases args.len(),
{
    if args.len() == 0 {
        Ok(mode)
    } else if args[0] == "--help"@ || args[0] == "-h"@ {
        Ok(LaunchMode::Help)
    } else if args[0] == "--version"@ || args[0] == "-V"@ {
        Ok(LaunchMode::Version)
    } else if args[0] == "--gui"@ || args[0] == "--nogui"@ || args[0] == "nogui"@ {
        let next = if args[0] == "--gui"@ {
            LaunchMode::Gui
        } else {
            LaunchMode::Headless
        };
        if mode != LaunchMode::Auto && mode != next {
            Err("--gui and --nogui cannot be used together."@)
        } else {
            parsed(args.drop_first(), next)
        }
    } else {
        Err("Unknown argument: "@ + args[0] + ". Use --help for options."@)
    }
}

impl LaunchMode {
    /// Reads the arguments behind the program's name.
    pub fn parse(args: Vec<String>) -> (r: Result<Self, String>)
        ensures
            match parsed(arg_texts(args@), LaunchMode::Auto) {
                Ok(mode) => r == Ok::<LaunchMode, String>(mode),
                Err(e) => r is Err && r->Err_0@ == e,
            },
    {
        let mut mode = LaunchMode::Auto;
        let ghost all = arg_texts(args@);
        let mut i: usize = 0;
        assert(all.skip(0) =~= all);
        while i < args.len()
            invariant
                i <= args@.len(),
                all == arg_texts(args@),
                parsed(all.skip(i as int), mode) == parsed(all, LaunchMode::Auto),
            decreases args@.len() - i,
        {
            let arg = args[i].as_str();
            let ghost rest = all.skip(i as int);
            assert(rest[0] == arg@);
            assert(rest.drop_first() =~= all.skip(i + 1));
            proof {
                reveal_strlit("--gui");
                reveal_strlit("--nogui");
                reveal_strlit("nogui");
                reveal_strlit("--help");
                reveal_strlit("-h");
                reveal_strlit("--version");
                reveal_strlit("-V");
            }
            let next = if str_eq(arg, "--help") || str_eq(arg, "-h") {
                return Ok(LaunchMode::Help);
            } else if str_eq(arg, "--version") || str_eq(arg, "-V") {
                return Ok(LaunchMode::Version);
            } else if str_eq(arg, "--gui") {
                LaunchMode::Gui
            } else if str_eq(arg, "--nogui") || str_eq(arg, "nogui") {
                LaunchMode::Headless
            } else {
                let mut error = "Unknown argument: ".to_owned();
                error.append(arg);
                error.append(". Use --help for options.");
                return Err(error);
            };
            if mode != LaunchMode::Auto && mode != next {
                return Err("--gui and --nogui cannot be used together.".to_owned());
            }
            mode = next;
            i = i + 1;
        }
        Ok(mode)
    }

    /// Whether to open the window, given whether the build has one and whether there is
    /// a display.
    pub fn use_gui(self, supported: bool, display_available: bool) -> (r: Result<bool, String>)
        ensures
            r is Err == (self == LaunchMode::Gui && (!supported || !display_available)),
            r is Ok ==> r->Ok_0 == ((self == LaunchMode::Gui || self == LaunchMode::Auto)
                && supported && display_available),
            r is Err && !supported ==> r->Err_0@
                == "This build has no desktop GUI. Build on Linux, Windows or macOS with --features gui."@,
            r is Err && supported ==> r->Err_0@
                == "No desktop display is available. Use --nogui for a headless server."@,
    {
        match self {
            LaunchMode::Gui => {
                if !supported {
                    Err(
                        "This build has no desktop GUI. Build on Linux, Windows or macOS with --features gui.".to_owned(),
                    )
                } else if !display_available {
                    Err(
                        "No desktop display is available. Use --nogui for a headless server.".to_owned(),
                    )
                } else {
                    Ok(true)
                }
            },
            LaunchMode::Auto => Ok(supported && display_available),
            _ => Ok(false),
        }
    }
}

/// Help and version are asked for by their long and their short names, and nothing behind them
/// matters.
pub proof fn law_help_and_version_end_the_reading(
    first: Seq<char>,
    rest: Seq<Seq<char>>,
    mode: LaunchMode,
)
    ensures
        first == "--help"@ || first == "-h"@ ==> parsed(seq![first] + rest, mode) == Ok::<
            LaunchMode,
            Seq<char>,
        >(LaunchMode::Help),
        first == "--version"@ || first == "-V"@ ==> parsed(seq![first] + rest, mode) == Ok::<
            LaunchMode,
            Seq<char>,
        >(LaunchMode::Version),
        parsed(Seq::empty(), mode) == Ok::<LaunchMode, Seq<char>>(mode),
{
    lemma_names_differ();
}

proof fn lemma_names_differ()
    ensures
        "--help"@ != "--version"@ && "--help"@ != "-V"@ && "-h"@ != "--version"@ && "-h"@ != "-V"@,
        "--gui"@ != "--help"@ && "--gui"@ != "-h"@ && "--gui"@ != "--version"@ && "--gui"@ != "-V"@,
        "--nogui"@ != "--help"@ && "--nogui"@ != "-h"@ && "--nogui"@ != "--version"@ && "--nogui"@
            != "-V"@ && "--nogui"@ != "--gui"@,
        "nogui"@ != "--help"@ && "nogui"@ != "-h"@ && "nogui"@ != "--version"@ && "nogui"@ != "-V"@
            && "nogui"@ != "--gui"@,
{
    reveal_strlit("--help");
    reveal_strlit("-h");
    reveal_strlit("--version");
    reveal_strlit("-V");
    reveal_strlit("--gui");
    reveal_strlit("--nogui");
    reveal_strlit("nogui");
    assert("-h"@[1] == 'h' && "-V"@[1] == 'V');
    assert("nogui"@[0] == 'n' && "--gui"@[0] == '-');
    assert("--help"@.len() == 6 && "-h"@.len() == 2 && "--version"@.len() == 9);
    assert("-V"@.len() == 2 && "--gui"@.len() == 5 && "--nogui"@.len() == 7 && "nogui"@.len() == 5);
}

/// The window is asked for or refused for all that follows; asking for both is an error, and so
/// is any other argument.
pub proof fn law_the_window_is_asked_for_or_refused(
    first: Seq<char>,
    rest: Seq<Seq<char>>,
    mode: LaunchMode,
)
    ensures
        first == "--gui"@ && (mode == LaunchMode::Auto || mode == LaunchMode::Gui) ==> parsed(
            seq![first] + rest,
            mode,
        ) == parsed(rest, LaunchMode::Gui),
        (first == "--nogui"@ || first == "nogui"@) && (mode == LaunchMode::Auto || mode
            == LaunchMode::Headless) ==> parsed(seq![first] + rest, mode) == parsed(
            rest,
            LaunchMode::Headless,
        ),
        first == "--gui"@ && mode == LaunchMode::Headless ==> parsed(seq![first] + rest, mode)
            is Err,
        (first == "--nogui"@ || first == "nogui"@) && mode == LaunchMode::Gui ==> parsed(
            seq![first] + rest,
            mode,
        ) is Err,
        first != "--help"@ && first != "-h"@ && first != "--version"@ && first != "-V"@ && first
            != "--gui"@ && first != "--nogui"@ && first != "nogui"@ ==> parsed(
            seq![first] + rest,
            mode,
        ) == Err::<LaunchMode, Seq<char>>(
            "Unknown argument: "@ + first + ". Use --help for options."@,
        ),
{
    lemma_names_differ();
    let s = seq![first] + rest;
    assert(s[0] == first);
    assert(s.drop_first() =~= rest);
}

} // verus!
