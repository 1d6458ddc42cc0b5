//! The builtin registry: which command names the shell handles itself, and
//! the flag reading of the `pwd` builtin.
use crate::text::same_text;
use vstd::prelude::*;

verus! {

/// A command name resolved against the builtin registry.
#[derive(PartialEq, Eq, Structural, Clone, Copy, Debug)]
pub enum Builtin {
    Cd,
    Pwd,
    Help,
    Exit,
    History,
    /// Not a builtin: an external program.
    External,
}

/// The registry entry for a command name.
pub open spec fn builtin_of(name: Seq<char>) -> Builtin {
    if name == "cd"@ {
        Builtin::Cd
    } else if name == "pwd"@ {
        Builtin::Pwd
    } else if name == "help"@ {
        Builtin::Help
    } else if name == "exit"@ {
        Builtin::Exit
    } else if name == "history"@ {
        Builtin::History
    } else {
        Builtin::External
    }
}

/// Resolves a command name against the builtin registry.
pub fn classify(name: &str) -> (r: Builtin)
    ensures
        r == builtin_of(name@),
{
    if same_text(name, "cd") {
        Builtin::Cd
    } else if same_text(name, "pwd") {
        Builtin::Pwd
    } else if same_text(name, "help") {
        Builtin::Help
    } else if same_text(name, "exit") {
        Builtin::Exit
    } else if same_text(name, "history") {
        Builtin::History
    } else {
        Builtin::External
    }
}

/// The names of the builtins, in the order `help` lists them.
pub fn builtin_names() -> (r: Vec<&'static str>)
    ensures
        r@.len() == 5,
        r@[0]@ == "cd"@,
        r@[1]@ == "pwd"@,
        r@[2]@ == "help"@,
        r@[3]@ == "history"@,
        r@[4]@ == "exit"@,
{
    vec!["cd", "pwd", "help", "history", "exit"]
}

/// Which directory `pwd` prints, or its usage text.
#[derive(PartialEq, Eq, Structural, Clone, Copy, Debug)]
pub enum PwdMode {
    /// The directory as the operating system reports it.
    Physical,
    /// The `PWD` variable where it is set, else as `Physical`.
    Logical,
    /// Print the usage text and no directory.
    Help,
}

pub open spec fn is_physical_flag(a: Seq<char>) -> bool {
    a == "-P"@
}

pub open spec fn is_logical_flag(a: Seq<char>) -> bool {
    a == "-L"@
}

pub open spec fn is_help_flag(a: Seq<char>) -> bool {
    a == "-h"@
}

/// Reads `pwd` flags left to right: `(physical, help)` after all of them, or
/// the first flag that is not understood.
pub open spec fn pwd_scan(args: Seq<Seq<char>>) -> Result<(bool, bool), Seq<char>>
    decreases args.len(),
{
    if args.len() == 0 {
        Ok((true, false))
    } else {
        match pwd_scan(args.drop_last()) {
            Err(a) => Err(a),
            Ok((physical, help)) => {
                let a = args.last();
                if is_physical_flag(a) {
                    Ok((true, help))
                } else if is_logical_flag(a) {
                    Ok((false, help))
                } else if is_help_flag(a) {
                    Ok((physical, true))
                } else {
                    Err(a)
                }
            },
        }
    }
}

/// The mode that `pwd` flags ask for: help wins, else the last of the
/// physical and logical flags, physical by default.
pub open spec fn pwd_mode_of(args: Seq<Seq<char>>) -> Result<PwdMode, Seq<char>> {
    match pwd_scan(args) {
        Err(a) => Err(a),
        Ok((physical, help)) => if help {
            Ok(PwdMode::Help)
        } else if physical {
            Ok(PwdMode::Physical)
        } else {
            Ok(PwdMode::Logical)
        },
    }
}

proof fn lemma_pwd_error_sticks(v: Seq<Seq<char>>, k: int, n: int)
    requires
        0 <= k <= n <= v.len(),
        pwd_scan(v.subrange(0, k)) is Err,
    ensures
        pwd_scan(v.subrange(0, n)) == pwd_scan(v.subrange(0, k)),
    decreases n - k,
{
    if n > k {
        lemma_pwd_error_sticks(v, k, n - 1);
        assert(v.subrange(0, n).drop_last() =~= v.subrange(0, n - 1));
    }
}

/// Reads the flags of `pwd`; an unrecognised one is returned as the error.
pub fn parse_pwd_args(args: &Vec<String>) -> (r: Result<PwdMode, String>)
    ensures
        match pwd_mode_of(args@.map_values(|a: String| a@)) {
            Ok(m) => r == Ok::<PwdMode, String>(m),
            Err(a) => r is Err && r->Err_0@ == a,
        },
{
    let ghost v = args@.map_values(|a: String| a@);
    let mut physical = true;
    let mut help = false;
    let mut i: usize = 0;
    while i < args.len()
        invariant
            i <= args@.len(),
            v == args@.map_values(|a: String| a@),
            pwd_scan(v.subrange(0, i as int)) == Ok::<(bool, bool), Seq<char>>((physical, help)),
        decreases args@.len() - i,
    {
        let a = args[i].as_str();
        assert(v.subrange(0, i + 1).drop_last() =~= v.subrange(0, i as int));
        assert(v.subrange(0, i + 1).last() == a@);
        if same_text(a, "-P") {
            physical = true;
        } else if same_text(a, "-L") {
            physical = false;
        } else if same_text(a, "-h") {
            help = true;
        } else {
            proof {
                lemma_pwd_error_sticks(v, i + 1, v.len() as int);
                assert(v.subrange(0, v.len() as int) =~= v);
            }
            return Err(args[i].clone());
        }
        i += 1;
    }
    assert(v.subrange(0, args@.len() as int) =~= v);
    if help {
        Ok(PwdMode::Help)
    } else if physical {
        Ok(PwdMode::Physical)
    } else {
        Ok(PwdMode::Logical)
    }
}

/// The directory that `pwd` prints in a mode, given the `PWD` variable and
/// the directory that the operating system reports; nothing for `Help`.
pub fn pwd_output(mode: PwdMode, logical: Option<String>, physical: String) -> (r: Option<String>)
    ensures
        mode == PwdMode::Help ==> r is None,
        mode == PwdMode::Physical ==> r == Some(physical),
        mode == PwdMode::Logical ==> r == match logical {
            Some(p) => Some(p),
            None => Some(physical),
        },
{
    match mode {
        PwdMode::Help => None,
        PwdMode::Physical => Some(physical),
        PwdMode::Logical => match logical {
            Some(p) => Some(p),
            None => Some(physical),
        },
    }
}

} // verus!
