use cpprs::profile::{
    ccompiler, cflags, choose_compiler, cpphs_invocation, includes, invocation, CCompiler,
};

fn strings(ls: &[&str]) -> Vec<String> {
    ls.iter().map(|l| l.to_string()).collect()
}

#[test]
fn executable_names() {
    assert_eq!(ccompiler(&CCompiler::GCC), "gcc");
    assert_eq!(ccompiler(&CCompiler::ICC), "icc");
    assert_eq!(ccompiler(&CCompiler::Clang), "clang");
}

#[test]
fn preprocess_only_flags() {
    assert_eq!(cflags(&CCompiler::GCC), strings(&["-E", "-x", "c"]));
    assert_eq!(cflags(&CCompiler::Clang), strings(&["-E", "-x", "c"]));
    assert_eq!(cflags(&CCompiler::ICC), strings(&["-E"]));
}

#[test]
fn include_flags_pair_each_directory() {
    assert_eq!(includes(&Vec::new()), Vec::<String>::new());
    assert_eq!(
        includes(&strings(&["cbits", "/usr/local/include"])),
        strings(&["-I", "cbits", "-I", "/usr/local/include"])
    );
}

#[test]
fn invocation_puts_input_last() {
    let inv = invocation(&CCompiler::GCC, "src/lib.cpprs", &strings(&["cbits"]));
    assert_eq!(inv.program, "gcc");
    assert_eq!(inv.args, strings(&["-E", "-x", "c", "-I", "cbits", "src/lib.cpprs"]));
    let inv = invocation(&CCompiler::ICC, "a.x", &Vec::new());
    assert_eq!(inv.program, "icc");
    assert_eq!(inv.args, strings(&["-E", "a.x"]));
}

#[test]
fn cpphs_gets_input_and_output() {
    let inv = cpphs_invocation("a.cpprs", "a.rs", &Vec::new());
    assert_eq!(inv.program, "cpphs");
    assert_eq!(inv.args, strings(&["a.cpprs", "a.rs"]));
    let inv = cpphs_invocation("a.cpprs", "a.rs", &strings(&["cbits", "inc"]));
    assert_eq!(inv.args, strings(&["a.cpprs", "a.rs", "-I", "cbits", "-I", "inc"]));
}

#[test]
fn compiler_preference_order() {
    assert_eq!(choose_compiler(true, true, true), Some(CCompiler::GCC));
    assert_eq!(choose_compiler(false, true, true), Some(CCompiler::Clang));
    assert_eq!(choose_compiler(false, false, true), Some(CCompiler::ICC));
    assert_eq!(choose_compiler(false, false, false), None);
}
