//! Preprocessor families, the command that runs each in preprocess-only
//! mode, and the choice among those installed.

use vstd::prelude::*;
use crate::scan::views;

verus! {

/// A family of C preprocessors.
#[derive(Clone, Copy, Debug, PartialEq, Eq, Structural)]
pub enum CCompiler {
    GCC,
    ICC,
    Clang,
}

/// The executable that runs the family.
pub open spec fn exe_name(cc: CCompiler) -> Seq<char> {
    match cc {
        CCompiler::GCC => "gcc"@,
        CCompiler::ICC => "icc"@,
        CCompiler::Clang => "clang"@,
    }
}

/// Preprocess only; all but ICC must also be told that the input is C.
pub open spec fn flags_of(cc: CCompiler) -> Seq<Seq<char>> {
    match cc {
        CCompiler::ICC => seq!["-E"@],
        _ => seq!["-E"@, "-x"@, "c"@],
    }
}

/// `-I` before each include directory, in order.
pub open spec fn include_args(dirs: Seq<Seq<char>>) -> Seq<Seq<char>>
    decreases dirs.len(),
{
    if dirs.len() == 0 {
        Seq::empty()
    } else {
        include_args(dirs.drop_last()) + seq!["-I"@, dirs.last()]
    }
}

/// The arguments of a run on `fp`: the family's flags, the include
/// directories, then the input file.
pub open spec fn invocation_args(cc: CCompiler, dirs: Seq<Seq<char>>, fp: Seq<char>) -> Seq<
    Seq<char>,
> {
    flags_of(cc) + include_args(dirs) + seq![fp]
}

/// A command to run: the executable and its arguments, in order.
pub struct InvocationSpec {
    pub program: String,
    pub args: Vec<String>,
}

pub fn ccompiler(cc: &CCompiler) -> (r: String)
    ensures
        r@ == exe_name(*cc),
{
    match cc {
        CCompiler::GCC => "gcc".to_owned(),
        CCompiler::ICC => "icc".to_owned(),
        CCompiler::Clang => "clang".to_owned(),
    }
}

pub fn cflags(cc: &CCompiler) -> (r: Vec<String>)
    ensures
        views(r@) == flags_of(*cc),
{
    let r = match cc {
        CCompiler::ICC => vec!["-E".to_owned()],
        _ => vec!["-E".to_owned(), "-x".to_owned(), "c".to_owned()],
    };
    assert(views(r@) =~= flags_of(*cc));
    r
}

/// Appends `-I` and the directory for each include directory.
pub fn push_includes(args: &mut Vec<String>, dirs: &Vec<String>)
    ensures
        views(final(args)@) == views(old(args)@) + include_args(views(dirs@)),
{
    let ghost start = views(args@);
    let ghost ds = views(dirs@);
    let mut i: usize = 0;
    while i < dirs.len()
        invariant
            0 <= i <= dirs@.len(),
            ds == views(dirs@),
            views(args@) == start + include_args(ds.take(i as int)),
        decreases dirs@.len() - i,
    {
        let ghost before = views(args@);
        args.push("-I".to_owned());
        let d = dirs[i].clone();
        args.push(d);
        proof {
            assert(views(args@) =~= before + seq!["-I"@, ds[i as int]]);
            assert(ds.take(i + 1).last() == ds[i as int]);
            assert(ds.take(i + 1).drop_last() =~= ds.take(i as int));
            assert(views(args@) =~= start + include_args(ds.take(i + 1)));
        }
        i = i + 1;
    }
    assert(ds.take(i as int) =~= ds);
}

/// `-I` before each include directory, in order.
pub fn includes(dirs: &Vec<String>) -> (r: Vec<String>)
    ensures
        views(r@) == include_args(views(dirs@)),
{
    let mut r: Vec<String> = Vec::new();
    push_includes(&mut r, dirs);
    assert(views(r@) =~= include_args(views(dirs@)));
    r
}

/// The command that preprocesses `fp` with the family `cc`.
pub fn invocation(cc: &CCompiler, fp: &str, dirs: &Vec<String>) -> (r: InvocationSpec)
    ensures
        r.program@ == exe_name(*cc),
        views(r.args@) == invocation_args(*cc, views(dirs@), fp@),
{
    let mut args = cflags(cc);
    push_includes(&mut args, dirs);
    let ghost before = views(args@);
    args.push(fp.to_owned());
    assert(views(args@) =~= before + seq![fp@]);
    InvocationSpec { program: ccompiler(cc), args }
}

/// The command that runs `cpphs` on `fp`, writing to `out`, with `-I`
/// before each include directory.
pub fn cpphs_invocation(fp: &str, out: &str, dirs: &Vec<String>) -> (r: InvocationSpec)
    ensures
        r.program@ == "cpphs"@,
        views(r.args@) == seq![fp@, out@] + include_args(views(dirs@)),
{
    let mut args = vec![fp.to_owned(), out.to_owned()];
    assert(views(args@) =~= seq![fp@, out@]);
    push_includes(&mut args, dirs);
    InvocationSpec { program: "cpphs".to_owned(), args }
}

/// The first installed family in order of preference: GCC, then Clang,
/// then ICC.
pub fn choose_compiler(gcc: bool, clang: bool, icc: bool) -> (r: Option<CCompiler>)
    ensures
        r == if gcc {
            Some(CCompiler::GCC)
        } else if clang {
            Some(CCompiler::Clang)
        } else if icc {
            Some(CCompiler::ICC)
        } else {
            None
        },
{
    if gcc {
        Some(CCompiler::GCC)
    } else if clang {
        Some(CCompiler::Clang)
    } else if icc {
        Some(CCompiler::ICC)
    } else {
        None
    }
}

} // verus!
