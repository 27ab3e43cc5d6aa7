use cargo_core::compile_mode::CompileMode;
use cargo_core::compile_outputs::{collect_compilation, OutputInfo, UnitDep, UnitOutputs};

fn s(x: &str) -> String {
    x.to_string()
}

fn out(path: &str, bin_dst: &str, debuginfo: bool, rlib: bool) -> OutputInfo {
    OutputInfo { path: s(path), bin_dst: s(bin_dst), debuginfo, rlib }
}

fn dep(pkg: usize, run_custom_build: bool, lib_build: bool, name: &str, outputs: Vec<OutputInfo>) -> UnitDep {
    UnitDep {
        pkg,
        run_custom_build,
        out_dir: format!("/t/build/{}/out", name),
        lib_build,
        for_host: false,
        extern_name: s(name),
        outputs,
    }
}

fn unit(pkg: usize, name: &str, is_bin: bool, is_lib: bool, mode: CompileMode) -> UnitOutputs {
    UnitOutputs {
        pkg,
        target_name: s(name),
        is_bin,
        is_lib,
        mode,
        outputs: vec![],
        deps: vec![],
        features: vec![],
        rustdocflags: vec![],
    }
}

#[test]
fn compilation_results_are_collected() {
    let mut lib = unit(0, "foo", false, true, CompileMode::Build);
    lib.outputs = vec![out("/t/deps/libfoo.rlib", "/t/libfoo.rlib", false, true)];
    lib.deps = vec![dep(0, true, false, "foo", vec![])];
    lib.features = vec![s("a"), s("b"), s("a")];
    let mut bin = unit(0, "foo", true, false, CompileMode::Build);
    bin.outputs = vec![out("/t/deps/foo-1", "/t/foo", false, false), out("/t/deps/foo-1.pdb", "/t/foo.pdb", true, false)];
    bin.features = vec![s("c")];
    bin.rustdocflags = vec![s("--cfg"), s("x")];
    let mut test = unit(1, "bar", false, false, CompileMode::Test);
    test.outputs = vec![out("/t/deps/bar-2", "/t/bar", false, false)];
    let mut doctest = unit(0, "foo", false, true, CompileMode::Doctest);
    doctest.deps = vec![
        dep(2, false, true, "zeta", vec![out("/t/libzeta.rlib", "", false, true), out("/t/libzeta.so", "", false, false)]),
        dep(3, false, true, "alpha", vec![out("/t/libalpha.rlib", "", false, true)]),
        dep(4, false, false, "check", vec![out("/t/libcheck.rmeta", "", false, false)]),
    ];
    let units = vec![lib, bin, test, doctest];
    let scripts = vec![(0, vec![s("feature=\"a\""), s("unix")]), (5, vec![])];
    let r = collect_compilation(&units, &scripts);
    assert_eq!(r.tests, vec![(1, s("bar"), s("/t/deps/bar-2"))]);
    assert_eq!(r.binaries, vec![s("/t/foo")]);
    assert_eq!(r.extra_env, vec![(0, vec![(s("OUT_DIR"), s("/t/build/foo/out"))])]);
    assert_eq!(r.to_doc_test, vec![(3, vec![(s("alpha"), s("/t/libalpha.rlib")), (s("zeta"), s("/t/libzeta.rlib"))])]);
    assert_eq!(r.cfgs, vec![(0, vec![s("feature=\"a\""), s("feature=\"b\""), s("unix")]), (5, vec![])]);
    assert_eq!(r.rustdocflags, vec![(0, vec![s("--cfg"), s("x")])]);
}
