//! The command lines of the two programs.
use vstd::prelude::*;
use vstd::string::*;

use crate::text::{same, texts};

verus! {

/// How a program is to run.
#[derive(Debug)]
pub struct Args {
    pub listen: String,
    pub db_path: String,
    pub seed: bool,
}

/// What a command line asks for.
#[derive(Debug)]
pub enum Command {
    Run(Args),
    Help,
}

/// What [`Args`] say.
#[verifier::ext_equal]
pub ghost struct ArgsView {
    pub listen: Seq<char>,
    pub db_path: Seq<char>,
    pub seed: bool,
}

impl View for Args {
    type V = ArgsView;

    open spec fn view(&self) -> ArgsView {
        ArgsView { listen: self.listen@, db_path: self.db_path@, seed: self.seed }
    }
}

/// What a [`Command`] says.
#[verifier::ext_equal]
pub ghost enum CommandView {
    Run(ArgsView),
    Help,
}

impl View for Command {
    type V = CommandView;

    open spec fn view(&self) -> CommandView {
        match self {
            Command::Run(a) => CommandView::Run(a@),
            Command::Help => CommandView::Help,
        }
    }
}

/// The two programs. They differ in the words of their complaints, and only the
/// survey knows `--seed`.
#[derive(Clone, Copy, Debug, PartialEq, Eq, Structural)]
pub enum Program {
    Survey,
    Workbench,
}

/// How a program runs where nothing else is asked for.
pub open spec fn usual() -> ArgsView {
    ArgsView { listen: "127.0.0.1:5322"@, db_path: "acoustic-review.db"@, seed: true }
}

/// How a missing address is reported.
pub open spec fn no_listen(p: Program) -> Seq<char> {
    match p {
        Program::Survey => "missing --listen value"@,
        Program::Workbench => "--listen needs an address"@,
    }
}

/// How a missing path is reported.
pub open spec fn no_db(p: Program) -> Seq<char> {
    match p {
        Program::Survey => "missing --db value"@,
        Program::Workbench => "--db needs a path"@,
    }
}

/// How a word that means nothing is reported.
pub open spec fn unknown(p: Program, arg: Seq<char>) -> Seq<char> {
    match p {
        Program::Survey => "未知参数: "@ + arg,
        Program::Workbench => "unknown argument: "@ + arg,
    }
}

/// What the words from `at` on ask for, where those before asked for `a`.
pub open spec fn asked(p: Program, words: Seq<Seq<char>>, at: int, a: ArgsView) -> Result<
    CommandView,
    Seq<char>,
>
    decreases words.len() - at,
{
    if at >= words.len() {
        Ok(CommandView::Run(a))
    } else if words[at] == "--listen"@ {
        if at + 1 < words.len() {
            asked(p, words, at + 2, ArgsView { listen: words[at + 1], ..a })
        } else {
            Err(no_listen(p))
        }
    } else if words[at] == "--db"@ {
        if at + 1 < words.len() {
            asked(p, words, at + 2, ArgsView { db_path: words[at + 1], ..a })
        } else {
            Err(no_db(p))
        }
    } else if words[at] == "--seed"@ && p == Program::Survey {
        asked(p, words, at + 1, ArgsView { seed: true, ..a })
    } else if words[at] == "--no-seed"@ {
        asked(p, words, at + 1, ArgsView { seed: false, ..a })
    } else if words[at] == "--help"@ || words[at] == "-h"@ {
        Ok(CommandView::Help)
    } else {
        Err(unknown(p, words[at]))
    }
}

/// Reads a command line, without the name of the program.
pub fn parse_args(p: Program, words: &Vec<String>) -> (r: Result<Command, String>)
    ensures
        match r {
            Ok(c) => asked(p, texts(words@), 0, usual()) == Ok::<CommandView, Seq<char>>(c@),
            Err(m) => asked(p, texts(words@), 0, usual()) == Err::<CommandView, Seq<char>>(m@),
        },
{
    let ghost all = texts(words@);
    let mut a = Args {
        listen: "127.0.0.1:5322".to_owned(),
        db_path: "acoustic-review.db".to_owned(),
        seed: true,
    };
    let mut i: usize = 0;
    while i < words.len()
        invariant
            i <= words@.len(),
            all == texts(words@),
            asked(p, all, 0, usual()) == asked(p, all, i as int, a@),
        decreases words@.len() - i,
    {
        let w = words[i].as_str();
        assert(all[i as int] == w@);
        let left: usize = words.len() - i;
        if same(w, "--listen") {
            if left < 2 {
                return Err(
                    match p {
                        Program::Survey => "missing --listen value".to_owned(),
                        Program::Workbench => "--listen needs an address".to_owned(),
                    },
                );
            }
            assert(all[i + 1] == words@[i + 1]@);
            a.listen = words[i + 1].clone();
            i += 2;
        } else if same(w, "--db") {
            if left < 2 {
                return Err(
                    match p {
                        Program::Survey => "missing --db value".to_owned(),
                        Program::Workbench => "--db needs a path".to_owned(),
                    },
                );
            }
            assert(all[i + 1] == words@[i + 1]@);
            a.db_path = words[i + 1].clone();
            i += 2;
        } else if p == Program::Survey && same(w, "--seed") {
            a.seed = true;
            i += 1;
        } else if same(w, "--no-seed") {
            a.seed = false;
            i += 1;
        } else if same(w, "--help") || same(w, "-h") {
            return Ok(Command::Help);
        } else {
            let mut m = match p {
                Program::Survey => "未知参数: ".to_owned(),
                Program::Workbench => "unknown argument: ".to_owned(),
            };
            m.append(w);
            return Err(m);
        }
    }
    Ok(Command::Run(a))
}

} // verus!
