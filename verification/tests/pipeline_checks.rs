use move_language_server::analysis::{Analysis, AnalysisHost};
use move_language_server::config::Config;
use move_language_server::db::{FileMap, RootDatabase};
use move_language_server::dialects::LibraDialect;
use move_language_server::errors::{CompilerError, Diagnostic, ErrorPart, Span};
use move_language_server::pipeline::ParseOutcome;
use move_language_server::position::{Position, Range};

fn b(s: &str) -> Vec<u8> {
    s.as_bytes().to_vec()
}

fn s(v: &[u8]) -> String {
    String::from_utf8_lossy(v).to_string()
}

fn range(start: (usize, usize), end: (usize, usize)) -> Range {
    Range {
        start: Position { line: start.0, character: start.1 },
        end: Position { line: end.0, character: end.1 },
    }
}

fn all_parsed(n: usize) -> Vec<ParseOutcome> {
    let mut v = Vec::new();
    for _ in 0..n {
        v.push(ParseOutcome::Parsed);
    }
    v
}

fn config_with_sender(sender: &str) -> Config {
    let mut config = Config::default();
    config.sender_address = LibraDialect.normalize_account_address(&b(sender)).unwrap();
    config
}

fn analysis_with(config: Config, files: Vec<(&str, &str)>) -> Analysis {
    let mut entries = Vec::new();
    for (path, text) in files {
        entries.push((b(path), b(text)));
    }
    Analysis::new(RootDatabase { config, available_files: FileMap { entries } })
}

/// Runs a check whose compiler core reports nothing: only the library's own
/// verification stage can produce a diagnostic.
fn diagnostics_with_config(text: &str, config: Config) -> Option<Diagnostic> {
    let analysis = analysis_with(config, vec![]);
    let fpath = b("/project/some_script.move");
    let plan = analysis.prepare_check(&fpath, &b(text));
    let outcomes = all_parsed(plan.files.len());
    let fd = analysis
        .check_file_with_compiler(plan, outcomes, Vec::new())
        .unwrap();
    fd.and_then(|fd| fd.diagnostic)
}

fn diagnostics(text: &str) -> Option<Diagnostic> {
    diagnostics_with_config(text, Config::default())
}

/// Runs a check whose compiler core rejects the current file with one error.
fn diagnostics_with_parse_error(
    text: &str,
    config: Config,
    needle: &str,
    message: &str,
) -> Option<Diagnostic> {
    let analysis = analysis_with(config, vec![]);
    let fpath = b("/project/some_script.move");
    let plan = analysis.prepare_check(&fpath, &b(text));
    let prepared = s(plan.files[0].prepared.as_ref().expect("file should be prepared"));
    let start = prepared.find(needle).expect("needle should occur in the prepared text");
    let err = CompilerError {
        parts: vec![ErrorPart {
            fpath: fpath.clone(),
            span: Span { start, end: start + needle.len() },
            message: b(message),
        }],
    };
    let mut outcomes = all_parsed(plan.files.len());
    outcomes[0] = ParseOutcome::Failed(vec![err]);
    let fd = analysis
        .check_file_with_compiler(plan, outcomes, Vec::new())
        .unwrap();
    fd.and_then(|fd| fd.diagnostic)
}

#[test]
fn test_fail_on_non_ascii_character() {
    let source_text = "fun main() { return; }ффф";
    let error = diagnostics(source_text).expect("one diagnostic expected");
    assert_eq!(error.range, range((0, 22), (0, 22)));
}

#[test]
fn test_successful_compilation() {
    let source = r"
script {
    fun main() {}
}
    ";
    assert!(diagnostics(source).is_none());
}

#[test]
fn test_function_parse_error() {
    let source_text = "module M { struc S { f: u64 } }";
    let error =
        diagnostics_with_parse_error(source_text, Config::default(), "struc", "Unexpected 'struc'")
            .expect("one diagnostic expected");
    assert_eq!(s(&error.message), "Unexpected 'struc'");
    assert_eq!(error.range, range((0, 11), (0, 16)));
}

#[test]
fn test_syntax_error_in_dependency() {
    let mut config = Config::default();
    config.modules_folders = vec![b("/modules")];
    let dep_fpath = "/modules/dep_module.move";
    let dep_text = "address 0x0 { modules T { public fun how_many() {} } }";
    let main_fpath = "/modules/module.move";
    let main_text = r"
    module HowMany {
        use 0x0::T;
        public fun how() {
            T::how_many()
        }
    }
    ";
    let analysis = analysis_with(config, vec![(dep_fpath, dep_text), (main_fpath, main_text)]);
    let plan = analysis.prepare_check(&b(main_fpath), &b(main_text));
    assert_eq!(plan.files.len(), 2);
    assert_eq!(s(&plan.files[1].fpath), dep_fpath);
    let start = dep_text.find("modules").unwrap();
    let err = CompilerError {
        parts: vec![ErrorPart {
            fpath: b(dep_fpath),
            span: Span { start, end: start + "modules".len() },
            message: b("Unexpected 'modules'"),
        }],
    };
    let mut outcomes = all_parsed(plan.files.len());
    outcomes[1] = ParseOutcome::Failed(vec![err]);
    let fd = analysis
        .check_file_with_compiler(plan, outcomes, Vec::new())
        .unwrap()
        .expect("one diagnostic expected");
    // the diagnostic belongs to the dependency, not to the current file
    assert_eq!(s(&fd.fpath), dep_fpath);
    assert_eq!(s(&fd.diagnostic.as_ref().unwrap().message), "Unexpected 'modules'");
}

#[test]
fn test_substitude_sender_as_template_syntax() {
    let source_text = r"
address {{sender}} {
    module Debug {
        public fun main() {
            let _ = {{sender}};
        }
    }
}";
    let config = config_with_sender("0x1111111111111111");
    let sender_literal = s(&config.sender_address.normalized_original);
    // the template source reaches the compiler core as the very text the
    // user would have written with the sender spelled out
    let analysis = analysis_with(config_with_sender("0x1111111111111111"), vec![]);
    let plan = analysis.prepare_check(&b("/project/some_script.move"), &b(source_text));
    let manual = source_text.replace("{{sender}}", &sender_literal);
    assert_eq!(s(plan.files[0].prepared.as_ref().unwrap()), manual);
    assert!(diagnostics_with_config(source_text, config).is_none());
}

#[test]
fn test_substitude_sender_as_template_syntax_with_spaces() {
    let source_text = r"
address {{ sender }} {
    module Debug {
        public fun main() {
            let _ = {{ sender }};
        }
    }
}";
    let config = config_with_sender("0x1111111111111111");
    assert!(diagnostics_with_config(source_text, config).is_none());
}

#[test]
fn test_sender_substitution_with_errors() {
    let source_text = r"
address {{sender}} {
    module Debug {
        public fun debug() {
            let _ = 0x0::Unknown::unknown();
        }
    }
}";
    let config = config_with_sender("0x1111111111111111");
    let error = diagnostics_with_parse_error(
        source_text,
        config,
        "0x0::Unknown::unknown",
        "Unbound module '0x0::Unknown'",
    )
    .expect("one diagnostic expected");
    assert_eq!(s(&error.message), "Unbound module '0x0::Unknown'");
    assert_eq!(error.range, range((4, 20), (4, 41)));
}

#[test]
fn test_multiple_substitutions_with_sender() {
    let source_text = r"
address {{sender}} {
    module Debug {
        public fun debug() {
            let _ = {{sender}};
            let _ = 0x0::Unknown::unknown();
        }
    }
}";
    let config = config_with_sender("0x1111111111111111");
    let error = diagnostics_with_parse_error(
        source_text,
        config,
        "0x0::Unknown::unknown",
        "Unbound module '0x0::Unknown'",
    )
    .expect("one diagnostic expected");
    assert_eq!(s(&error.message), "Unbound module '0x0::Unknown'");
    assert_eq!(error.range, range((5, 20), (5, 41)));
}

#[test]
fn test_replace_with_longer_form_if_sender_shorter_than_template_string() {
    let source_text = r"
address {{sender}} {
    module Debug {
        public fun main() {}
    }
}";
    let config = config_with_sender("0x1");
    assert!(diagnostics_with_config(source_text, config).is_none());
}

fn starcoin_config_with_sender(sender: &str) -> Config {
    let mut config = config_with_sender(sender);
    config.dialect_name = move_language_server::dialects::DialectName::Starcoin;
    config
}

#[test]
fn test_bech32_and_sender_substitution_with_errors() {
    let source_text = r"
address {{ sender }} {
    module Debug {
        public fun main() {
            let _ = 0x12345;
            let _ = {{ sender }};
            // errors out
            0x0::Unknown::unknown();
        }
    }
}";
    let config = starcoin_config_with_sender("0x12345");
    let error = diagnostics_with_parse_error(
        source_text,
        config,
        "0x0::Unknown::unknown",
        "Unbound module '0x0::Unknown'",
    )
    .expect("one diagnostic expected");
    assert_eq!(s(&error.message), "Unbound module '0x0::Unknown'");
    assert_eq!(error.range, range((7, 12), (7, 33)));
}

#[test]
fn test_error_message_unbound_module_with_bech32_address_and_sender() {
    let text = r"
script {
    fun main() {
        let _ = {{sender}}::Unknown::unknown();
    }
}
        ";
    let config = starcoin_config_with_sender("0x12345");
    let sender_literal = s(&config.sender_address.normalized_original);
    let needle = format!("{}::Unknown::unknown", sender_literal);
    let error =
        diagnostics_with_parse_error(text, config, &needle, "Unbound module '0x12345::Unknown'")
            .expect("one diagnostic expected");
    assert_eq!(error.range, range((3, 16), (3, 44)));
    assert_eq!(s(&error.message), "Unbound module '0x12345::Unknown'");
}

#[test]
fn test_starcoin_documentation_issue_should_not_crash_with_span_overflow() {
    let dfi_module_text = r"
address 0x0 {
/// docs
module DFI {
    struct T {}
}
}";
    assert!(diagnostics(dfi_module_text).is_none());
}

#[test]
fn test_sender_replacement_in_script() {
    let module_text = r"
address {{sender}} {
    module Debug {
        public fun debug(): u8 {
            1
        }
    }
}";
    let source_text = r"
script {
    fun main() {
        let _ = {{sender}}::Debug::debug();
    }
}
        ";
    let mut config = config_with_sender("0x1");
    config.modules_folders = vec![b("/modules")];
    let sender_literal = s(&config.sender_address.normalized_original);
    let analysis = analysis_with(config, vec![("/modules/debug.move", module_text)]);
    let fpath = b("/project/some_script.move");
    let plan = analysis.prepare_check(&fpath, &b(source_text));
    // the placeholder is substituted in the current file and in the dependency
    assert_eq!(plan.files.len(), 2);
    assert!(s(plan.files[0].prepared.as_ref().unwrap()).contains(&sender_literal));
    assert!(s(plan.files[1].prepared.as_ref().unwrap()).contains(&sender_literal));
    let outcomes = all_parsed(plan.files.len());
    let error = analysis
        .check_file_with_compiler(plan, outcomes, Vec::new())
        .unwrap();
    assert!(error.is_none(), "{:?}", error.is_some());
}

#[test]
fn non_ascii_bytes_are_permitted_inside_comments_and_strings() {
    assert!(diagnostics("fun main() { return; } // ффф").is_none());
    assert!(diagnostics("fun main() { let _ = \"ффф\"; }").is_none());
}

#[test]
fn related_locations_follow_their_own_files() {
    let mut config = Config::default();
    config.modules_folders = vec![b("/modules")];
    let dep_fpath = "/modules/dep.move";
    let dep_text = "module Dep { public fun f() {} }";
    let main_fpath = "/modules/main.move";
    let main_text = "script { fun main() { Dep::f(1); } }";
    let analysis = analysis_with(config, vec![(dep_fpath, dep_text)]);
    let plan = analysis.prepare_check(&b(main_fpath), &b(main_text));
    let use_site = main_text.find("Dep::f(1)").unwrap();
    let decl_site = dep_text.find("public fun f").unwrap();
    let err = CompilerError {
        parts: vec![
            ErrorPart {
                fpath: b(main_fpath),
                span: Span { start: use_site, end: use_site + 9 },
                message: b("wrong number of arguments"),
            },
            ErrorPart {
                fpath: b(dep_fpath),
                span: Span { start: decl_site, end: decl_site + 12 },
                message: b("declared here"),
            },
        ],
    };
    let outcomes = all_parsed(plan.files.len());
    let fd = analysis
        .check_file_with_compiler(plan, outcomes, vec![err])
        .unwrap()
        .expect("one diagnostic expected");
    // attributed to the use site in the current file, never to the declaration
    assert_eq!(s(&fd.fpath), main_fpath);
    let d = fd.diagnostic.unwrap();
    assert_eq!(d.range, range((0, use_site), (0, use_site + 9)));
    assert_eq!(d.related.len(), 1);
    assert_eq!(s(&d.related[0].fpath), dep_fpath);
    assert_eq!(d.related[0].range, range((0, decl_site), (0, decl_site + 12)));
}

#[test]
fn translation_fault_on_unknown_file_is_fatal_not_a_diagnostic() {
    let analysis = analysis_with(Config::default(), vec![]);
    let fpath = b("/project/some_script.move");
    let plan = analysis.prepare_check(&fpath, &b("script { fun main() {} }"));
    let err = CompilerError {
        parts: vec![ErrorPart {
            fpath: b("/somewhere/else.move"),
            span: Span { start: 0, end: 1 },
            message: b("mystery"),
        }],
    };
    let outcomes = all_parsed(plan.files.len());
    assert!(analysis
        .check_file_with_compiler(plan, outcomes, vec![err])
        .is_err());
}

#[test]
fn test_stdlib_modules_are_available_if_loaded() {
    let source_text = r"
module MyModule {
    use 0x1::Signer;

    public fun how_main(s: &signer) {
        let _ = Signer::address_of(s);
    }
}
    ";
    let mut config = Config::default();
    config.stdlib_folder = Some(b("/stdlib"));
    let analysis = analysis_with(
        config,
        vec![("/stdlib/signer.move", "module Signer { public fun address_of() {} }")],
    );
    let fpath = b("/project/some_script.move");
    let plan = analysis.prepare_check(&fpath, &b(source_text));
    // the standard library file takes part in the batch
    assert_eq!(plan.files.len(), 2);
    assert_eq!(s(&plan.files[1].fpath), "/stdlib/signer.move");
    let outcomes = all_parsed(plan.files.len());
    let r = analysis
        .check_file_with_compiler(plan, outcomes, Vec::new())
        .unwrap();
    assert!(r.is_none());
}

#[test]
fn test_compile_check_script_with_additional_dependencies() {
    let script_source_text = r"
script {
    use 0x1::Signer;
    use 0x2::Record;

    fun main(s: &signer) {
        let signer_address = Signer::address_of(s);
        let record = Record::get_record(signer_address);
        Record::save(s, record);
    }
}
    ";
    let mut config = config_with_sender("0x8572f83cee01047effd6e7d0b5c19743");
    config.stdlib_folder = Some(b("/stdlib"));
    config.modules_folders = vec![b("/modules")];
    let analysis = analysis_with(
        config,
        vec![
            ("/stdlib/signer.move", "module Signer {}"),
            ("/modules/record.move", "module Record {}"),
        ],
    );
    let fpath = b("/project/some_script.move");
    let plan = analysis.prepare_check(&fpath, &b(script_source_text));
    assert_eq!(plan.files.len(), 3);
    let outcomes = all_parsed(plan.files.len());
    let r = analysis
        .check_file_with_compiler(plan, outcomes, Vec::new())
        .unwrap();
    assert!(r.is_none());
}

#[test]
fn test_compile_check_module_from_a_folder_with_folder_provided_as_dependencies() {
    // checking a file that itself lies under a module folder must not hand
    // the file to the batch twice
    let record_module_fpath = "/modules/record.move";
    let record_module_text = "module Record { public fun get_record() {} }";
    let mut config = Config::default();
    config.stdlib_folder = Some(b("/stdlib"));
    config.modules_folders = vec![b("/modules")];
    let analysis = analysis_with(config, vec![(record_module_fpath, record_module_text)]);
    let plan = analysis.prepare_check(&b(record_module_fpath), &b(record_module_text));
    assert_eq!(plan.files.len(), 1);
    let outcomes = all_parsed(plan.files.len());
    let r = analysis
        .check_file_with_compiler(plan, outcomes, Vec::new())
        .unwrap();
    assert!(r.is_none());
}

#[test]
fn test_compile_with_sender_address_specified() {
    let script_source_text = r"
script {
    use 0x1::Signer;

    fun main(s: &signer) {
        let _ = Signer::address_of(s);
    }
}
    ";
    let mut config = config_with_sender("0x1");
    config.stdlib_folder = Some(b("/stdlib"));
    let analysis =
        analysis_with(config, vec![("/stdlib/signer.move", "module Signer {}")]);
    let fpath = b("/project/some_script.move");
    let plan = analysis.prepare_check(&fpath, &b(script_source_text));
    let outcomes = all_parsed(plan.files.len());
    let r = analysis
        .check_file_with_compiler(plan, outcomes, Vec::new())
        .unwrap();
    assert!(r.is_none());
}

#[test]
fn test_check_one_of_the_stdlib_modules_no_duplicate_definition() {
    let source_text = r"
address 0x1 {
    module Debug {
        native public fun print<T>(x: &T);

        native public fun print_stack_trace();
    }
}
    ";
    let mut config = Config::default();
    config.stdlib_folder = Some(b("/stdlib"));
    let debug_fpath = "/stdlib/debug.move";
    let analysis = analysis_with(config, vec![(debug_fpath, source_text)]);
    let plan = analysis.prepare_check(&b(debug_fpath), &b(source_text));
    // the checked file is excluded from its own dependency set
    assert_eq!(plan.files.len(), 1);
    let outcomes = all_parsed(plan.files.len());
    let r = analysis
        .check_file_with_compiler(plan, outcomes, Vec::new())
        .unwrap();
    assert!(r.is_none());
}

#[test]
fn analysis_snapshot_is_independent_of_later_changes() {
    let mut host = AnalysisHost::default();
    let mut change = move_language_server::db::AnalysisChange::new();
    change.add_file(b("/a.move"), b("script { fun main() {} }"));
    host.apply_change(change);
    let snapshot = host.analysis();
    let mut change2 = move_language_server::db::AnalysisChange::new();
    change2.remove_file(b("/a.move"));
    host.apply_change(change2);
    assert!(host.db().available_files.get(&b("/a.move")).is_none());
    assert!(snapshot.db().available_files.get(&b("/a.move")).is_some());
}
