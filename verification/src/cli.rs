//! Command-line interpretation: an optional leading `+FORMAT` argument, a
//! help request, or a child command to run.

use crate::bytes::{copy_bytes, views_of};
use vstd::prelude::*;

verus! {

/// The default timestamp pattern, `%H:%M:%S`.
pub open spec fn default_format() -> Seq<u8> {
    seq![37u8, 72u8, 58u8, 37u8, 77u8, 58u8, 37u8, 83u8]
}

/// `-h`, `-help` or `--help`.
pub open spec fn is_help_word(s: Seq<u8>) -> bool {
    ||| s == seq![45u8, 104u8]
    ||| s == seq![45u8, 104u8, 101u8, 108u8, 112u8]
    ||| s == seq![45u8, 45u8, 104u8, 101u8, 108u8, 112u8]
}

/// Whether the first argument names a timestamp format: it begins with `+`.
pub open spec fn has_format_arg(args: Seq<Seq<u8>>) -> bool {
    args.len() > 0 && args[0].len() > 0 && args[0][0] == 43u8
}

/// The arguments left once an optional format argument is taken off: the
/// child's full argument vector.
pub open spec fn rest_args(args: Seq<Seq<u8>>) -> Seq<Seq<u8>> {
    if has_format_arg(args) {
        args.drop_first()
    } else {
        args
    }
}

/// The timestamp pattern chosen: the text after `+`, or the default.
pub open spec fn chosen_format(args: Seq<Seq<u8>>) -> Seq<u8> {
    if has_format_arg(args) {
        args[0].drop_first()
    } else {
        default_format()
    }
}

/// Whether the invocation asks for the usage text: no program argument is
/// left, or the first one is a help flag.
pub open spec fn wants_help(args: Seq<Seq<u8>>) -> bool {
    rest_args(args).len() == 0 || is_help_word(rest_args(args)[0])
}

/// What a command line asks for.
pub enum CliAction {
    /// Print the usage text and exit successfully; no child is spawned.
    Help,
    /// Run `argv` as the child command, stamping lines under `fmt`.
    Launch { fmt: Vec<u8>, argv: Vec<Vec<u8>> },
}

/// Whether one argument is a help flag.
fn is_help_word_exec(v: &Vec<u8>) -> (b: bool)
    ensures
        b == is_help_word(v@),
{
    let b = if v.len() == 2 {
        v[0] == 45 && v[1] == 104
    } else if v.len() == 5 {
        v[0] == 45 && v[1] == 104 && v[2] == 101 && v[3] == 108 && v[4] == 112
    } else if v.len() == 6 {
        v[0] == 45 && v[1] == 45 && v[2] == 104 && v[3] == 101 && v[4] == 108 && v[5] == 112
    } else {
        false
    };
    proof {
        if b {
            if v@.len() == 2 {
                assert(v@ =~= seq![45u8, 104u8]);
            } else if v@.len() == 5 {
                assert(v@ =~= seq![45u8, 104u8, 101u8, 108u8, 112u8]);
            } else {
                assert(v@ =~= seq![45u8, 45u8, 104u8, 101u8, 108u8, 112u8]);
            }
        }
    }
    b
}

/// Interpret the wrapper's own arguments, `args` being everything after the
/// program name. A leading `+`-argument chooses the timestamp format; then
/// either the usage text is owed — no command left, or a help flag first —
/// or the rest is the child's argument vector, passed through verbatim.
pub fn parse_args(args: &Vec<Vec<u8>>) -> (r: CliAction)
    ensures
        ({
            let a = views_of(args@);
            &&& (r is Help <==> wants_help(a))
            &&& (r matches CliAction::Launch { fmt, argv } ==> {
                &&& fmt@ == chosen_format(a)
                &&& views_of(argv@) == rest_args(a)
            })
        }),
{
    let ghost a = views_of(args@);
    let has_fmt = args.len() > 0 && args[0].len() > 0 && args[0][0] == 43;
    proof {
        assert(has_fmt == has_format_arg(a));
    }
    let start: usize = if has_fmt {
        1
    } else {
        0
    };
    let mut rest: Vec<Vec<u8>> = Vec::new();
    let mut i: usize = start;
    proof {
        assert(views_of(rest@) =~= a.subrange(start as int, start as int));
    }
    while i < args.len()
        invariant
            a == views_of(args@),
            start <= i <= args@.len(),
            start == (if has_format_arg(a) {
                1int
            } else {
                0int
            }),
            views_of(rest@) == a.subrange(start as int, i as int),
        decreases args@.len() - i,
    {
        let item = copy_bytes(&args[i]);
        let ghost rest0 = rest@;
        let ghost itemv = item@;
        rest.push(item);
        i = i + 1;
        proof {
            assert(views_of(rest@) =~= views_of(rest0) + seq![itemv]);
            assert(itemv == a[i - 1]);
            assert(views_of(rest@) =~= a.subrange(start as int, i as int));
        }
    }
    proof {
        if has_format_arg(a) {
            assert(a.subrange(1, a.len() as int) =~= a.drop_first());
        } else {
            assert(a.subrange(0, a.len() as int) =~= a);
        }
        assert(views_of(rest@) == rest_args(a));
    }
    if rest.len() == 0 || is_help_word_exec(&rest[0]) {
        CliAction::Help
    } else {
        let fmt: Vec<u8> = if has_fmt {
            let src = &args[0];
            let mut f: Vec<u8> = Vec::new();
            let mut k: usize = 1;
            while k < src.len()
                invariant
                    1 <= k <= src@.len(),
                    f@ == src@.subrange(1, k as int),
                decreases src@.len() - k,
            {
                f.push(src[k]);
                k = k + 1;
                assert(f@ =~= src@.subrange(1, k as int));
            }
            proof {
                assert(src@.subrange(1, src@.len() as int) =~= src@.drop_first());
                assert(src@ == a[0]);
            }
            f
        } else {
            let mut f: Vec<u8> = Vec::new();
            f.push(37);
            f.push(72);
            f.push(58);
            f.push(37);
            f.push(77);
            f.push(58);
            f.push(37);
            f.push(83);
            assert(f@ =~= default_format());
            f
        };
        CliAction::Launch { fmt, argv: rest }
    }
}

} // verus!
