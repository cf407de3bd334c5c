//! Decisions of the command line: which makefile to read, and which flags a
//! further `make` below this one is handed.

use crate::opts::listed;
use crate::text::{chars_of, same_text, string_of, texts};
use vstd::prelude::*;
use vstd::string::StringExecFns;

verus! {

/// The names under which a makefile is looked for, the first one first.
pub open spec fn conventional() -> Seq<Seq<char>> {
    seq![
        "makefile"@,
        "Makefile"@,
        "BSDmakefile"@,
        "BSDMakefile"@,
        "GNUmakefile"@,
        "GNUMakefile"@,
    ]
}

/// Index of the first of `names` at or after `i` that is one of `wanted`
/// and, where `also` is given, one of `also` too; the number of names where
/// there is none.
pub open spec fn first_in(
    names: Seq<Seq<char>>,
    wanted: Seq<Seq<char>>,
    also: Option<Seq<Seq<char>>>,
    i: int,
) -> int
    decreases names.len() - i,
{
    if 0 <= i < names.len() && !(wanted.contains(names[i]) && (also is None
        || also->Some_0.contains(names[i]))) {
        first_in(names, wanted, also, i + 1)
    } else {
        i
    }
}

/// The makefile to read: the first conventional name that the directory
/// lists as it is written and that is a regular file; else the first
/// conventional name that is a regular file; else none.
pub open spec fn chosen_makefile(listing: Seq<Seq<char>>, regular: Seq<Seq<char>>) -> Option<
    Seq<char>,
> {
    let exact = first_in(conventional(), regular, Some(listing), 0);
    let any = first_in(conventional(), regular, None, 0);
    if 0 <= exact < conventional().len() {
        Some(conventional()[exact])
    } else if 0 <= any < conventional().len() {
        Some(conventional()[any])
    } else {
        None
    }
}

/// The names under which a makefile is looked for, the first one first.
pub fn conventional_names() -> (out: Vec<&'static str>)
    ensures
        out@.map_values(|s: &'static str| s@) == conventional(),
{
    let out = vec![
        "makefile",
        "Makefile",
        "BSDmakefile",
        "BSDMakefile",
        "GNUmakefile",
        "GNUMakefile",
    ];
    assert(out@.map_values(|s: &'static str| s@) =~= conventional());
    out
}

/// The first of `names` that is in `wanted` and, where given, in `also`.
fn first_listed(names: &Vec<&'static str>, wanted: &Vec<String>, also: Option<&Vec<String>>) -> (out:
    Option<usize>)
    ensures
        ({
            let views = names@.map_values(|s: &'static str| s@);
            let extra = match also {
                Some(v) => Some(texts(v@)),
                None => None,
            };
            let found = first_in(views, texts(wanted@), extra, 0);
            match out {
                Some(i) => i == found && i < names.len(),
                None => found == names.len(),
            }
        }),
{
    let ghost views = names@.map_values(|s: &'static str| s@);
    let ghost extra = match also {
        Some(v) => Some(texts(v@)),
        None => None,
    };
    let mut i: usize = 0;
    while i < names.len()
        invariant
            i <= names.len(),
            views == names@.map_values(|s: &'static str| s@),
            extra == match also {
                Some(v) => Some(texts(v@)),
                None => None,
            },
            first_in(views, texts(wanted@), extra, 0) == first_in(
                views,
                texts(wanted@),
                extra,
                i as int,
            ),
        decreases names.len() - i,
    {
        let name = names[i];
        assert(views[i as int] == name@);
        let second = match also {
            Some(v) => listed(v, name),
            None => true,
        };
        if listed(wanted, name) && second {
            return Some(i);
        }
        i += 1;
    }
    None
}

/// Chooses the makefile to read, from the names that the directory lists and
/// the conventional names that are regular files.
pub fn find_makefile(listing: &Vec<String>, regular: &Vec<String>) -> (out: Option<String>)
    ensures
        crate::context::text_of(out) == chosen_makefile(texts(listing@), texts(regular@)),
{
    let names = conventional_names();
    match first_listed(&names, regular, Some(listing)) {
        Some(i) => Some(String::from_str(names[i])),
        None => match first_listed(&names, regular, None) {
            Some(i) => Some(String::from_str(names[i])),
            None => None,
        },
    }
}

/// Whether `arg` is one of the flags that are not handed down.
pub open spec fn withheld(arg: Seq<char>) -> bool {
    arg == "-j"@ || arg == "-C"@ || arg == "-f"@ || arg == "-o"@ || arg == "-W"@
}

/// Whether `arg` is handed down: it holds no space and is not withheld.
pub open spec fn handed_down(arg: Seq<char>) -> bool {
    !arg.contains(' ') && !withheld(arg)
}

/// Whether `arg` is handed down as a long flag: it begins with `--`.
pub open spec fn long_flag(arg: Seq<char>) -> bool {
    handed_down(arg) && arg.len() >= 2 && arg[0] == '-' && arg[1] == '-'
}

/// Whether `arg` is handed down as short flags: it begins with one `-`.
pub open spec fn short_flag(arg: Seq<char>) -> bool {
    handed_down(arg) && !long_flag(arg) && arg.len() >= 1 && arg[0] == '-'
}

/// The short flags among the first `n` of `args`, without their `-`, one
/// after the other.
pub open spec fn short_flags(args: Seq<Seq<char>>, n: nat) -> Seq<char>
    decreases n,
{
    if n == 0 || n > args.len() {
        Seq::empty()
    } else if short_flag(args[n - 1]) {
        short_flags(args, (n - 1) as nat) + args[n - 1].subrange(1, args[n - 1].len() as int)
    } else {
        short_flags(args, (n - 1) as nat)
    }
}

/// Whether one of the first `n` of `args` is handed down as short flags.
pub open spec fn any_short(args: Seq<Seq<char>>, n: nat) -> bool
    decreases n,
{
    if n == 0 || n > args.len() {
        false
    } else {
        short_flag(args[n - 1]) || any_short(args, (n - 1) as nat)
    }
}

/// The long flags among the first `n` of `args`, each behind a space.
pub open spec fn long_flags(args: Seq<Seq<char>>, n: nat) -> Seq<char>
    decreases n,
{
    if n == 0 || n > args.len() {
        Seq::empty()
    } else if long_flag(args[n - 1]) {
        long_flags(args, (n - 1) as nat) + seq![' '] + args[n - 1]
    } else {
        long_flags(args, (n - 1) as nat)
    }
}

/// The flags for a further `make`: the short flags behind one `-`, where
/// there is any, then the long flags.
pub open spec fn submake_flags(args: Seq<Seq<char>>) -> Seq<char> {
    (if any_short(args, args.len()) {
        seq!['-'] + short_flags(args, args.len())
    } else {
        Seq::empty()
    }) + long_flags(args, args.len())
}

/// Whether `arg` is one of the flags that are not handed down.
fn is_withheld(arg: &Vec<char>) -> (out: bool)
    ensures
        out == withheld(arg@),
{
    same_text(arg, &chars_of("-j")) || same_text(arg, &chars_of("-C")) || same_text(
        arg,
        &chars_of("-f"),
    ) || same_text(arg, &chars_of("-o")) || same_text(arg, &chars_of("-W"))
}

/// The flags that a further `make` is handed, made from the arguments `args`
/// of this one.
pub fn args_to_submake_str(args: &Vec<String>) -> (out: String)
    ensures
        out@ == submake_flags(texts(args@)),
{
    let mut short: Vec<char> = Vec::new();
    let mut long: Vec<char> = Vec::new();
    let mut any = false;
    let mut i: usize = 0;
    while i < args.len()
        invariant
            i <= args.len(),
            short@ == short_flags(texts(args@), i as nat),
            long@ == long_flags(texts(args@), i as nat),
            any == any_short(texts(args@), i as nat),
        decreases args.len() - i,
    {
        let arg = chars_of(args[i].as_str());
        assert(texts(args@)[i as int] == arg@);
        let space = crate::text::find_char_from(&arg, ' ', 0);
        proof {
            crate::text::lemma_find_from_bounds(arg@, ' ', 0);
        }
        if space == arg.len() && !is_withheld(&arg) {
            assert(!arg@.contains(' '));
            if arg.len() >= 2 && arg[0] == '-' && arg[1] == '-' {
                long.push(' ');
                let mut copy = crate::text::slice_of(&arg, 0, arg.len());
                assert(arg@.subrange(0, arg.len() as int) == arg@);
                long.append(&mut copy);
            } else if arg.len() >= 1 && arg[0] == '-' {
                let mut rest = crate::text::slice_of(&arg, 1, arg.len());
                short.append(&mut rest);
                any = true;
            }
        } else {
            assert(!handed_down(arg@)) by {
                if space < arg.len() {
                    assert(arg@[space as int] == ' ');
                }
            }
        }
        i += 1;
    }
    let mut out: Vec<char> = Vec::new();
    if any {
        out.push('-');
        out.append(&mut short);
    }
    out.append(&mut long);
    string_of(&out)
}

} // verus!
