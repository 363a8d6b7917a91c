use move_language_server::analysis::Analysis;
use move_language_server::config::Config;
use move_language_server::db::{FileMap, RootDatabase};
use move_language_server::dialects::{DialectName, LibraDialect};
use move_language_server::errors::{CompilerError, Diagnostic, ErrorPart, Span};
use move_language_server::pipeline::ParseOutcome;
use move_language_server::position::{Position, Range};

fn b(s: &str) -> Vec<u8> {
    s.as_bytes().to_vec()
}

fn s(v: &[u8]) -> String {
    String::from_utf8_lossy(v).to_string()
}

fn range(start: (usize, usize), end: (usize, usize)) -> Range {
    Range {
        start: Position { line: start.0, character: start.1 },
        end: Position { line: end.0, character: end.1 },
    }
}

fn all_parsed(n: usize) -> Vec<ParseOutcome> {
    let mut v = Vec::new();
    for _ in 0..n {
        v.push(ParseOutcome::Parsed);
    }
    v
}

fn empty_analysis(dialect: DialectName) -> Analysis {
    let mut config = Config::default();
    config.dialect_name = dialect;
    Analysis::new(RootDatabase { config, available_files: FileMap { entries: Vec::new() } })
}

/// One check whose parser rejects the current file at `needle`.
fn parse_error(dialect: DialectName, text: &str, needle: &str, message: &str) -> Diagnostic {
    let analysis = empty_analysis(dialect);
    let fpath = b("/project/some_script.move");
    let plan = analysis.prepare_check(&fpath, &b(text));
    let prepared = s(plan.files[0].prepared.as_ref().unwrap());
    let start = prepared.find(needle).unwrap();
    let err = CompilerError {
        parts: vec![ErrorPart {
            fpath: fpath.clone(),
            span: Span { start, end: start + needle.len() },
            message: b(message),
        }],
    };
    let mut outcomes = all_parsed(plan.files.len());
    outcomes[0] = ParseOutcome::Failed(vec![err]);
    analysis
        .check_file_with_compiler(plan, outcomes, Vec::new())
        .unwrap()
        .expect("one diagnostic expected")
        .diagnostic
        .unwrap()
}

/// One check whose check stage rejects the program at the first occurrence
/// of `needle`.
fn check_error(dialect: DialectName, text: &str, needle: &str, message: &str) -> Diagnostic {
    let analysis = empty_analysis(dialect);
    let fpath = b("/project/some_script.move");
    let plan = analysis.prepare_check(&fpath, &b(text));
    let prepared = s(plan.files[0].prepared.as_ref().unwrap());
    let start = prepared.find(needle).unwrap();
    let err = CompilerError {
        parts: vec![ErrorPart {
            fpath: fpath.clone(),
            span: Span { start, end: start + needle.len() },
            message: b(message),
        }],
    };
    let outcomes = all_parsed(plan.files.len());
    analysis
        .check_file_with_compiler(plan, outcomes, vec![err])
        .unwrap()
        .expect("one diagnostic expected")
        .diagnostic
        .unwrap()
}

#[test]
fn test_main_function_parse_error() {
    let d = parse_error(
        DialectName::Libra,
        "script { main() {} }",
        "main",
        "Unexpected 'main'",
    );
    assert_eq!(s(&d.message), "Unexpected 'main'");
}

#[test]
fn test_multiline_function_parse_error() {
    let text = r"
module M {
    struc S {
        f: u64
    }
}
";
    let d = parse_error(DialectName::Libra, text, "struc", "Unexpected 'struc'");
    assert_eq!(s(&d.message), "Unexpected 'struc'");
}

#[test]
fn test_expansion_checks_duplicates() {
    let text = r"
module M {
    struct S {
        f: u64,
        f: u64,
    }
}
    ";
    let d = check_error(
        DialectName::Libra,
        text,
        "f: u64",
        "Duplicate definition for field 'f' in struct 'S'",
    );
    assert_eq!(s(&d.message), "Duplicate definition for field 'f' in struct 'S'");
}

#[test]
fn test_expansion_checks_public_main_redundancy() {
    let d = check_error(
        DialectName::Libra,
        r"script { public fun main() {} }",
        "public",
        "Extraneous 'public' modifier. Script functions are always public",
    );
    assert_eq!(
        s(&d.message),
        "Extraneous 'public' modifier. Script functions are always public"
    );
}

#[test]
fn test_naming_checks_generics_with_type_parameters() {
    let text = r"
module M {
    struct S<T> { f: T<u64> }
}
    ";
    let d = check_error(
        DialectName::Libra,
        text,
        "T<u64>",
        "Generic type parameters cannot take type arguments",
    );
    assert_eq!(s(&d.message), "Generic type parameters cannot take type arguments");
}

#[test]
fn test_typechecking_invalid_local_borrowing() {
    let text = r"
module M {
    fun t0(r: &u64) {
        &r;
    }
}
    ";
    let d = check_error(DialectName::Libra, text, "&r", "Invalid borrow");
    assert_eq!(s(&d.message), "Invalid borrow");
}

#[test]
fn invalid_valid_in_precense_of_bech32_address() {
    let invalid_source_text = r"
address 0x12345 {
    module Debug {
        pubic fun main() {}
    }
}
    ";
    let d = parse_error(
        DialectName::Starcoin,
        invalid_source_text,
        "pubic",
        "Unexpected 'pubic'",
    );
    assert_eq!(s(&d.message), "Unexpected 'pubic'");
    assert_eq!(d.range, range((3, 8), (3, 13)));
}

#[test]
fn test_error_message_for_unbound_module_with_bech32_address() {
    let text = r"
script {
    fun main() {
        let _ = 0x12345::Unknown::unknown();
    }
}
        ";
    let d = check_error(
        DialectName::Starcoin,
        text,
        "0x12345::Unknown",
        "Unbound module '0x12345::Unknown'",
    );
    assert_eq!(s(&d.message), "Unbound module '0x12345::Unknown'");
}

#[test]
fn test_compiler_out_of_bounds_multimessage_diagnostic() {
    // fragment spans past the end of the text clamp to the text instead of
    // desynchronizing the pass
    let text = "script { fun main() {} }";
    let analysis = empty_analysis(DialectName::Libra);
    let fpath = b("/project/some_script.move");
    let plan = analysis.prepare_check(&fpath, &b(text));
    let err = CompilerError {
        parts: vec![
            ErrorPart {
                fpath: fpath.clone(),
                span: Span { start: 9, end: 100_000 },
                message: b("mismatched types"),
            },
            ErrorPart {
                fpath: fpath.clone(),
                span: Span { start: 50_000, end: 60_000 },
                message: b("expected u8"),
            },
            ErrorPart {
                fpath: fpath.clone(),
                span: Span { start: 0, end: 6 },
                message: b("found record"),
            },
        ],
    };
    let outcomes = all_parsed(plan.files.len());
    let fd = analysis
        .check_file_with_compiler(plan, outcomes, vec![err])
        .unwrap()
        .expect("one diagnostic expected");
    let d = fd.diagnostic.unwrap();
    assert_eq!(d.related.len(), 2);
    // the overlong span ends at the end of the text
    assert_eq!(d.range, range((0, 9), (0, text.len())));
    assert_eq!(d.related[0].range, range((0, text.len()), (0, text.len())));
}

#[test]
fn two_bech32_addresses_one_in_the_middle_of_script() {
    let source_text = r"
address 0x12345 {
    module Debug {
        public fun main() {
            let _ = 0x12345;
        }
    }
}
    ";
    let analysis = empty_analysis(DialectName::Starcoin);
    let fpath = b("/project/some_script.move");
    let plan = analysis.prepare_check(&fpath, &b(source_text));
    let outcomes = all_parsed(plan.files.len());
    let clean = analysis
        .check_file_with_compiler(plan, outcomes, Vec::new())
        .unwrap();
    assert!(clean.is_none());

    let invalid_source_text = r"
address 0x12345 {
    module Debug {
        public fun main() {
            let addr = 0x12345;
        }
    }
}
    ";
    let analysis = empty_analysis(DialectName::Starcoin);
    let plan = analysis.prepare_check(&fpath, &b(invalid_source_text));
    let prepared = s(plan.files[0].prepared.as_ref().unwrap());
    let start = prepared.find("addr =").unwrap();
    let err = CompilerError {
        parts: vec![ErrorPart {
            fpath: fpath.clone(),
            span: Span { start, end: start + 4 },
            message: b("Unused assignment or binding for local 'addr'. Consider removing or replacing it with '_'"),
        }],
    };
    let outcomes = all_parsed(plan.files.len());
    let d = analysis
        .check_file_with_compiler(plan, outcomes, vec![err])
        .unwrap()
        .expect("one diagnostic expected")
        .diagnostic
        .unwrap();
    assert_eq!(
        s(&d.message),
        "Unused assignment or binding for local 'addr'. Consider removing or replacing it with '_'"
    );
    assert_eq!(d.range, range((4, 16), (4, 20)));

    let invalid_source_text = r"
address 0x12345 {
    module Debug {
        public fun main() {
            let _ = 0x12345;
            let _ = 0x12345;
            let _: u10;
        }
    }
}
    ";
    let d = check_error(
        DialectName::Starcoin,
        invalid_source_text,
        "u10",
        "Unbound type 'u10' in current scope",
    );
    assert_eq!(s(&d.message), "Unbound type 'u10' in current scope");
    assert_eq!(d.range, range((6, 19), (6, 22)));
}

#[test]
fn test_when_module_resolution_fails_error_should_be_at_use_site() {
    let script_text = r"script {
            use 0x0::UnknownPayments;
            fun main(s: &signer) {
                UnknownPayments::send_payment_event();
            }
        }";
    let d = check_error(
        DialectName::Libra,
        script_text,
        "0x0::UnknownPayments",
        "Invalid 'use'. Unbound module: '0x0::UnknownPayments'",
    );
    assert_eq!(s(&d.message), "Invalid 'use'. Unbound module: '0x0::UnknownPayments'");
}

#[test]
fn pass_bech32_address_as_sender() {
    let source_text = r"
address 0x12345 {
    module Debug {
        public fun main() {}
    }
}
    ";
    let mut config = Config::default();
    config.dialect_name = DialectName::Starcoin;
    config.sender_address = LibraDialect.normalize_account_address(&b("0x12345")).unwrap();
    let analysis = Analysis::new(RootDatabase { config, available_files: FileMap { entries: Vec::new() } });
    let plan = analysis.prepare_check(&b("/project/some_script.move"), &b(source_text));
    let outcomes = all_parsed(plan.files.len());
    let r = analysis
        .check_file_with_compiler(plan, outcomes, Vec::new())
        .unwrap();
    assert!(r.is_none());
}
