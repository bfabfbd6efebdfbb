//! The `zm` automation command line: which command its arguments ask for.
//!
//! ```text
//! zm list-panes | list-tabs
//! zm split [-v|-h]          (-v side by side, the default; -h one above the other)
//! zm new-tab
//! zm focus <left|right|up|down>
//! zm select-pane <id>
//! zm send-keys <data> [--pane <id>]
//! zm capture-pane [--pane <id>]
//! zm kill-pane <id>
//! ```

use vstd::prelude::*;
use crate::ipc::Command;
use crate::shim::{index_of, lemma_index_of};
use crate::text::{join_from, join_with, parse_u64_str, parse_u64_spec, str_eq, string_views};

verus! {

/// The id after the first `--pane`, when it is a number.
pub open spec fn pane_flag_spec(args: Seq<Seq<char>>) -> Option<u64> {
    let i = index_of(args, "--pane"@);
    if i + 1 < args.len() {
        parse_u64_spec(args[i + 1])
    } else {
        None
    }
}

/// The `send-keys` words: every argument but `--pane` and the one after it.
pub open spec fn data_words(args: Seq<Seq<char>>) -> Seq<Seq<char>>
    decreases args.len(),
{
    if args.len() == 0 {
        seq![]
    } else if args[0] == "--pane"@ {
        if args.len() >= 2 {
            data_words(args.skip(2))
        } else {
            seq![]
        }
    } else {
        seq![args[0]] + data_words(args.drop_first())
    }
}

/// The command the arguments (after the program name) ask for.
pub open spec fn parse_spec(args: Seq<Seq<char>>) -> Option<CliCommand> {
    if args.len() == 0 {
        None
    } else {
        let head = args[0];
        let rest = args.drop_first();
        if head == "list-panes"@ {
            Some(CliCommand::ListPanes)
        } else if head == "list-tabs"@ {
            Some(CliCommand::ListTabs)
        } else if head == "new-tab"@ || head == "new-window"@ {
            Some(CliCommand::NewTab)
        } else if head == "split"@ || head == "split-window"@ {
            Some(CliCommand::Split { vertical: !rest.contains("-h"@) })
        } else if head == "focus"@ || head == "select-direction"@ {
            if rest.len() == 0 {
                None
            } else {
                Some(CliCommand::Focus { dir: rest[0] })
            }
        } else if head == "select-pane"@ || head == "kill-pane"@ {
            if rest.len() == 0 {
                None
            } else {
                match parse_u64_spec(rest[0]) {
                    Some(id) => Some(
                        if head == "select-pane"@ {
                            CliCommand::SelectPane { id }
                        } else {
                            CliCommand::KillPane { id }
                        },
                    ),
                    None => None,
                }
            }
        } else if head == "send-keys"@ {
            Some(CliCommand::SendKeys { pane: pane_flag_spec(rest), data: join_with(data_words(rest), " "@) })
        } else if head == "capture-pane"@ {
            Some(CliCommand::CapturePane { pane: pane_flag_spec(rest) })
        } else {
            None
        }
    }
}

/// A command with its strings as character sequences.
pub enum CliCommand {
    ListPanes,
    ListTabs,
    Split { vertical: bool },
    NewTab,
    SelectPane { id: u64 },
    Focus { dir: Seq<char> },
    SendKeys { pane: Option<u64>, data: Seq<char> },
    CapturePane { pane: Option<u64> },
    KillPane { id: u64 },
}

/// The characters a command carries.
pub open spec fn command_view(c: Command) -> CliCommand {
    match c {
        Command::ListPanes => CliCommand::ListPanes,
        Command::ListTabs => CliCommand::ListTabs,
        Command::Split { vertical } => CliCommand::Split { vertical },
        Command::NewTab => CliCommand::NewTab,
        Command::SelectPane { id } => CliCommand::SelectPane { id },
        Command::Focus { dir } => CliCommand::Focus { dir: dir@ },
        Command::SendKeys { pane, data } => CliCommand::SendKeys { pane, data: data@ },
        Command::CapturePane { pane } => CliCommand::CapturePane { pane },
        Command::KillPane { id } => CliCommand::KillPane { id },
    }
}

/// The id after `--pane`, when it is a number.
pub fn pane_flag(args: &[String]) -> (r: Option<u64>)
    ensures
        r == pane_flag_spec(string_views(args@)),
{
    let ghost views = string_views(args@);
    let mut i: usize = 0;
    while i < args.len()
        invariant
            views == string_views(args@),
            i <= args@.len(),
            forall|j: int| 0 <= j < i ==> views[j] != "--pane"@,
        decreases args@.len() - i,
    {
        if str_eq(args[i].as_str(), "--pane") {
            proof {
                lemma_index_of(views, "--pane"@, i as int);
            }
            if i + 1 < args.len() {
                return parse_u64_str(args[i + 1].as_str());
            } else {
                return None;
            }
        }
        i = i + 1;
    }
    proof {
        lemma_index_of(views, "--pane"@, i as int);
    }
    None
}

fn send_keys_data(rest: &[String]) -> (r: String)
    ensures
        r@ == join_with(data_words(string_views(rest@)), " "@),
{
    let ghost views = string_views(rest@);
    let mut words: Vec<String> = Vec::new();
    let mut i: usize = 0;
    proof {
        assert(views.skip(0) =~= views);
        assert(string_views(words@) + data_words(views) =~= data_words(views));
    }
    while i < rest.len()
        invariant
            views == string_views(rest@),
            i <= rest@.len(),
            string_views(words@) + data_words(views.skip(i as int)) == data_words(views),
        decreases rest@.len() - i,
    {
        let ghost tail = views.skip(i as int);
        proof {
            assert(tail[0] == views[i as int]);
            assert(tail.drop_first() =~= views.skip(i + 1));
        }
        if str_eq(rest[i].as_str(), "--pane") {
            if rest.len() - i >= 2 {
                proof {
                    assert(tail.skip(2) =~= views.skip(i + 2));
                }
                i = i + 2;
            } else {
                proof {
                    assert(views.skip(rest@.len() as int) =~= Seq::<Seq<char>>::empty());
                }
                i = rest.len();
            }
        } else {
            let ghost before = string_views(words@);
            words.push(rest[i].clone());
            proof {
                assert(string_views(words@) =~= before + seq![views[i as int]]);
                assert(before + (seq![views[i as int]] + data_words(tail.drop_first())) =~= string_views(
                    words@,
                ) + data_words(views.skip(i + 1)));
            }
            i = i + 1;
        }
    }
    proof {
        assert(views.skip(i as int) =~= Seq::<Seq<char>>::empty());
        assert(string_views(words@) =~= data_words(views));
    }
    proof {
        assert(string_views(words@).skip(0) =~= string_views(words@));
    }
    join_from(words.as_slice(), 0, " ")
}

/// The command the arguments (after the program name) ask for; `None` on
/// an unknown subcommand or a missing or malformed operand.
pub fn parse(args: &[String]) -> (r: Option<Command>)
    ensures
        match r {
            Some(c) => parse_spec(string_views(args@)) == Some(command_view(c)),
            None => parse_spec(string_views(args@)) is None,
        },
{
    let ghost views = string_views(args@);
    if args.len() == 0 {
        return None;
    }
    let (first, rest) = args.split_at(1);
    let head = first[0].as_str();
    proof {
        assert(string_views(rest@) =~= views.drop_first());
        assert(head@ == views[0]);
    }
    if str_eq(head, "list-panes") {
        Some(Command::ListPanes)
    } else if str_eq(head, "list-tabs") {
        Some(Command::ListTabs)
    } else if str_eq(head, "new-tab") || str_eq(head, "new-window") {
        Some(Command::NewTab)
    } else if str_eq(head, "split") || str_eq(head, "split-window") {
        let horizontal = crate::shim::has_flag(rest, "-h");
        Some(Command::Split { vertical: !horizontal })
    } else if str_eq(head, "focus") || str_eq(head, "select-direction") {
        if rest.len() == 0 {
            None
        } else {
            Some(Command::Focus { dir: rest[0].clone() })
        }
    } else if str_eq(head, "select-pane") || str_eq(head, "kill-pane") {
        if rest.len() == 0 {
            None
        } else {
            match parse_u64_str(rest[0].as_str()) {
                Some(id) => {
                    if str_eq(head, "select-pane") {
                        Some(Command::SelectPane { id })
                    } else {
                        Some(Command::KillPane { id })
                    }
                },
                None => None,
            }
        }
    } else if str_eq(head, "send-keys") {
        let pane = pane_flag(rest);
        let data = send_keys_data(rest);
        Some(Command::SendKeys { pane, data })
    } else if str_eq(head, "capture-pane") {
        Some(Command::CapturePane { pane: pane_flag(rest) })
    } else {
        None
    }
}

} // verus!
